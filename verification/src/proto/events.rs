//! What a connection is asked to do, and what it has to tell.
//!
//! Whoever asks for something names it by a [`Ticket`], under which the answer
//! comes back as an [`Event`].

use crate::buf;
use crate::error;
use crate::error::{ErrorView, H2Error, Reason};
use crate::frame::{Frame, FrameView, StreamId};
use crate::proto::header_map;
use crate::proto::headers;
use crate::proto::headers::{DecodedHeader, FieldView};
use crate::proto::streams::{RecvView, StreamRecv};
use bytes::Bytes;
use http::header::{HeaderMap, HeaderValue};
use vstd::prelude::*;

verus! {

/// Names a request to the connection, so that the answer finds its way back.
#[derive(Clone, Copy, Debug, PartialEq, Eq, Structural)]
pub struct Ticket(pub u64);

/// Name and value of a header field that is to be sent.
pub type HeaderPair = (Bytes, Bytes);

/// The header fields as plain values.
pub open spec fn pairs(s: Seq<HeaderPair>) -> Seq<(Seq<u8>, Seq<u8>)> {
    s.map_values(|p: HeaderPair| (buf::content(p.0), buf::content(p.1)))
}

/// Commands sent from user handles to the connection task.
#[derive(Debug)]
pub enum Command {
    /// Client: open a new stream with request headers.
    NewStream {
        /// Header field list to encode via HPACK.
        headers: Vec<HeaderPair>,
        /// Whether to close the sending half immediately.
        end_stream: bool,
        /// Where the allocated stream ID and receive handle go.
        response_tx: Ticket,
    },
    /// Send HEADERS on an existing stream (server response or trailers).
    SendHeaders {
        /// Target stream identifier.
        stream_id: StreamId,
        /// Header field list to encode via HPACK.
        headers: Vec<HeaderPair>,
        /// Whether to set the END_STREAM flag.
        end_stream: bool,
        /// Where the result goes.
        response_tx: Ticket,
    },
    /// Send DATA on a stream.
    SendData {
        /// Target stream identifier.
        stream_id: StreamId,
        /// Payload bytes.
        data: Bytes,
        /// Whether to set the END_STREAM flag.
        end_stream: bool,
        /// Where the result goes.
        response_tx: Ticket,
    },
    /// Send trailers (HEADERS with END_STREAM) on a stream.
    SendTrailers {
        /// Target stream identifier.
        stream_id: StreamId,
        /// Trailer header field list.
        trailers: Vec<HeaderPair>,
        /// Where the result goes.
        response_tx: Ticket,
    },
    /// Initiate graceful shutdown by sending GOAWAY.
    GoAway {
        /// Where the result goes.
        response_tx: Ticket,
    },
    /// Send RST_STREAM on a specific stream.
    SendReset {
        /// Target stream identifier.
        stream_id: StreamId,
        /// The reason code for the reset.
        reason: Reason,
        /// Where the result goes.
        response_tx: Ticket,
    },
    /// Check if the connection can accept a new stream
    /// (MAX_CONCURRENT_STREAMS).
    PollReady {
        /// Where the result goes when capacity is available.
        response_tx: Ticket,
    },
    /// Abruptly shut down the connection with an error reason.
    AbruptShutdown {
        /// The error reason code to include in the GOAWAY frame.
        reason: Reason,
        /// Where the result goes.
        response_tx: Ticket,
    },
    /// Set the target connection-level receive window size at runtime.
    SetTargetWindowSize {
        /// The desired connection-level receive window size.
        size: u32,
        /// Where the result goes.
        response_tx: Ticket,
    },
    /// Set the initial stream-level window size via a new SETTINGS frame.
    SetInitialWindowSize {
        /// The new initial window size for new streams.
        size: u32,
        /// Where the result goes.
        response_tx: Ticket,
    },
    /// Reserve send capacity on a stream.
    ReserveCapacity {
        /// Target stream identifier.
        stream_id: StreamId,
        /// Number of bytes to reserve.
        amount: u32,
        /// Where granted capacity goes (partial grants are possible).
        response_tx: Ticket,
    },
}

/// A [`Command`] as plain values.
pub enum CommandView {
    /// See [`Command::NewStream`].
    NewStream {
        /// Header field list.
        headers: Seq<(Seq<u8>, Seq<u8>)>,
        /// Whether to close the sending half immediately.
        end_stream: bool,
        /// Where the result goes.
        response_tx: Ticket,
    },
    /// See [`Command::SendHeaders`].
    SendHeaders {
        /// Target stream identifier.
        stream_id: u32,
        /// Header field list.
        headers: Seq<(Seq<u8>, Seq<u8>)>,
        /// Whether to set the END_STREAM flag.
        end_stream: bool,
        /// Where the result goes.
        response_tx: Ticket,
    },
    /// See [`Command::SendData`].
    SendData {
        /// Target stream identifier.
        stream_id: u32,
        /// Payload bytes.
        data: Seq<u8>,
        /// Whether to set the END_STREAM flag.
        end_stream: bool,
        /// Where the result goes.
        response_tx: Ticket,
    },
    /// See [`Command::SendTrailers`].
    SendTrailers {
        /// Target stream identifier.
        stream_id: u32,
        /// Trailer header field list.
        trailers: Seq<(Seq<u8>, Seq<u8>)>,
        /// Where the result goes.
        response_tx: Ticket,
    },
    /// See [`Command::GoAway`].
    GoAway {
        /// Where the result goes.
        response_tx: Ticket,
    },
    /// See [`Command::SendReset`].
    SendReset {
        /// Target stream identifier.
        stream_id: u32,
        /// The reason code for the reset.
        reason: Reason,
        /// Where the result goes.
        response_tx: Ticket,
    },
    /// See [`Command::PollReady`].
    PollReady {
        /// Where the result goes.
        response_tx: Ticket,
    },
    /// See [`Command::AbruptShutdown`].
    AbruptShutdown {
        /// The error reason code.
        reason: Reason,
        /// Where the result goes.
        response_tx: Ticket,
    },
    /// See [`Command::SetTargetWindowSize`].
    SetTargetWindowSize {
        /// The desired window size.
        size: u32,
        /// Where the result goes.
        response_tx: Ticket,
    },
    /// See [`Command::SetInitialWindowSize`].
    SetInitialWindowSize {
        /// The new initial window size.
        size: u32,
        /// Where the result goes.
        response_tx: Ticket,
    },
    /// See [`Command::ReserveCapacity`].
    ReserveCapacity {
        /// Target stream identifier.
        stream_id: u32,
        /// Number of bytes to reserve.
        amount: u32,
        /// Where the result goes.
        response_tx: Ticket,
    },
}

impl View for Command {
    type V = CommandView;

    open spec fn view(&self) -> CommandView {
        match *self {
            Command::NewStream { headers, end_stream, response_tx } => CommandView::NewStream {
                headers: pairs(headers@),
                end_stream,
                response_tx,
            },
            Command::SendHeaders {
                stream_id,
                headers,
                end_stream,
                response_tx,
            } => CommandView::SendHeaders {
                stream_id: stream_id@,
                headers: pairs(headers@),
                end_stream,
                response_tx,
            },
            Command::SendData {
                stream_id,
                data,
                end_stream,
                response_tx,
            } => CommandView::SendData {
                stream_id: stream_id@,
                data: buf::content(data),
                end_stream,
                response_tx,
            },
            Command::SendTrailers { stream_id, trailers, response_tx } => CommandView::SendTrailers {
                stream_id: stream_id@,
                trailers: pairs(trailers@),
                response_tx,
            },
            Command::GoAway { response_tx } => CommandView::GoAway { response_tx },
            Command::SendReset { stream_id, reason, response_tx } => CommandView::SendReset {
                stream_id: stream_id@,
                reason,
                response_tx,
            },
            Command::PollReady { response_tx } => CommandView::PollReady { response_tx },
            Command::AbruptShutdown { reason, response_tx } => CommandView::AbruptShutdown {
                reason,
                response_tx,
            },
            Command::SetTargetWindowSize { size, response_tx } => CommandView::SetTargetWindowSize {
                size,
                response_tx,
            },
            Command::SetInitialWindowSize {
                size,
                response_tx,
            } => CommandView::SetInitialWindowSize { size, response_tx },
            Command::ReserveCapacity {
                stream_id,
                amount,
                response_tx,
            } => CommandView::ReserveCapacity { stream_id: stream_id@, amount, response_tx },
        }
    }
}

/// Internal messages processed by the connection main loop.
#[derive(Debug)]
pub enum InternalMsg {
    /// An incoming frame from the reader task.
    Frame(Result<Option<Frame>, H2Error>),
    /// A command from a user handle.
    Cmd(Command),
    /// Release recv flow control capacity for a stream.
    ReleaseCapacity {
        /// The stream to release capacity for.
        stream_id: StreamId,
        /// Number of bytes to release.
        amount: u32,
    },
}

/// An [`InternalMsg`] as plain values.
pub enum MsgView {
    /// A frame.
    Frame(FrameView),
    /// The end of the input.
    Eof,
    /// A failure of the reader.
    ReadError(ErrorView),
    /// A command.
    Cmd(CommandView),
    /// Released receive capacity.
    ReleaseCapacity {
        /// The stream to release capacity for.
        stream_id: u32,
        /// Number of bytes to release.
        amount: u32,
    },
}

impl View for InternalMsg {
    type V = MsgView;

    open spec fn view(&self) -> MsgView {
        match *self {
            InternalMsg::Frame(Ok(Some(f))) => MsgView::Frame(f@),
            InternalMsg::Frame(Ok(None)) => MsgView::Eof,
            InternalMsg::Frame(Err(e)) => MsgView::ReadError(e@),
            InternalMsg::Cmd(c) => MsgView::Cmd(c@),
            InternalMsg::ReleaseCapacity { stream_id, amount } => MsgView::ReleaseCapacity {
                stream_id: stream_id@,
                amount,
            },
        }
    }
}

/// Incoming stream info sent from connection to server's accept channel.
#[derive(Debug)]
pub struct IncomingStream {
    /// The stream ID assigned to this request.
    pub stream_id: StreamId,
    /// The decoded request headers.
    pub headers: Vec<DecodedHeader>,
    /// Receiver for the stream's data and trailers.
    pub recv: StreamRecv,
}

/// An [`IncomingStream`] as plain values.
pub struct IncomingView {
    /// The stream ID assigned to this request.
    pub stream_id: u32,
    /// The decoded request headers.
    pub headers: Seq<FieldView>,
    /// Receiver for the stream's data and trailers.
    pub recv: RecvView,
}

impl View for IncomingStream {
    type V = IncomingView;

    open spec fn view(&self) -> IncomingView {
        IncomingView {
            stream_id: self.stream_id@,
            headers: headers::views(self.headers@),
            recv: self.recv@,
        }
    }
}

/// Something that the connection has to tell.
#[derive(Debug)]
pub enum Event {
    /// Message data came in.
    Data {
        /// The stream.
        stream_id: StreamId,
        /// The data.
        data: Bytes,
    },
    /// No more data will come in, because of an error.
    DataError {
        /// The stream.
        stream_id: StreamId,
        /// The error.
        error: H2Error,
    },
    /// Trailers came in.
    Trailers {
        /// The stream.
        stream_id: StreamId,
        /// The trailers.
        trailers: HeaderMap<HeaderValue>,
    },
    /// No trailers will come in, because of an error.
    TrailersError {
        /// The stream.
        stream_id: StreamId,
        /// The error.
        error: H2Error,
    },
    /// Response headers came in.
    Response {
        /// The stream.
        stream_id: StreamId,
        /// The status.
        status: u16,
        /// The header fields.
        headers: HeaderMap<HeaderValue>,
    },
    /// The stream was reset.
    Reset {
        /// The stream.
        stream_id: StreamId,
        /// Why.
        reason: Reason,
    },
    /// Nothing more will come in on the stream.
    RecvClosed {
        /// The stream.
        stream_id: StreamId,
    },
    /// The peer opened a stream.
    Incoming(IncomingStream),
    /// The answer to a request for a new stream.
    Opened {
        /// Who asked.
        ticket: Ticket,
        /// The stream, or why there is none.
        stream: Result<(StreamId, StreamRecv), H2Error>,
    },
    /// The answer to a request without a value.
    Done {
        /// Who asked.
        ticket: Ticket,
        /// Whether it was done, or why not.
        result: Result<(), H2Error>,
    },
    /// The answer to a request for send capacity.
    Granted {
        /// Who asked.
        ticket: Ticket,
        /// How much may be sent, or why nothing may.
        amount: Result<u32, H2Error>,
        /// Whether nothing may because the stream was reset.
        reset: bool,
    },
    /// The connection has forgotten the stream.
    StreamGone {
        /// The stream.
        stream_id: StreamId,
        /// Whether it was reset.
        reset: bool,
    },
}

/// An [`Event`] as plain values.
pub enum EventView {
    /// See [`Event::Data`].
    Data {
        /// The stream.
        stream_id: u32,
        /// The data.
        data: Seq<u8>,
    },
    /// See [`Event::DataError`].
    DataError {
        /// The stream.
        stream_id: u32,
        /// The error.
        error: ErrorView,
    },
    /// See [`Event::Trailers`].
    Trailers {
        /// The stream.
        stream_id: u32,
        /// The trailers.
        trailers: Map<Seq<u8>, Seq<Seq<u8>>>,
    },
    /// See [`Event::TrailersError`].
    TrailersError {
        /// The stream.
        stream_id: u32,
        /// The error.
        error: ErrorView,
    },
    /// See [`Event::Response`].
    Response {
        /// The stream.
        stream_id: u32,
        /// The status.
        status: u16,
        /// The header fields.
        headers: Map<Seq<u8>, Seq<Seq<u8>>>,
    },
    /// See [`Event::Reset`].
    Reset {
        /// The stream.
        stream_id: u32,
        /// Why.
        reason: Reason,
    },
    /// See [`Event::RecvClosed`].
    RecvClosed {
        /// The stream.
        stream_id: u32,
    },
    /// See [`Event::Incoming`].
    Incoming(IncomingView),
    /// See [`Event::Opened`].
    Opened {
        /// Who asked.
        ticket: Ticket,
        /// The stream, or why there is none.
        stream: Result<(u32, RecvView), ErrorView>,
    },
    /// See [`Event::Done`].
    Done {
        /// Who asked.
        ticket: Ticket,
        /// Whether it was done, or why not.
        result: Result<(), ErrorView>,
    },
    /// See [`Event::Granted`].
    Granted {
        /// Who asked.
        ticket: Ticket,
        /// How much may be sent, or why nothing may.
        amount: Result<u32, ErrorView>,
        /// Whether nothing may because the stream was reset.
        reset: bool,
    },
    /// See [`Event::StreamGone`].
    StreamGone {
        /// The stream.
        stream_id: u32,
        /// Whether it was reset.
        reset: bool,
    },
}

impl View for Event {
    type V = EventView;

    open spec fn view(&self) -> EventView {
        match *self {
            Event::Data { stream_id, data } => EventView::Data {
                stream_id: stream_id@,
                data: buf::content(data),
            },
            Event::DataError { stream_id, error } => EventView::DataError {
                stream_id: stream_id@,
                error: error@,
            },
            Event::Trailers { stream_id, trailers } => EventView::Trailers {
                stream_id: stream_id@,
                trailers: header_map::map_content(trailers),
            },
            Event::TrailersError { stream_id, error } => EventView::TrailersError {
                stream_id: stream_id@,
                error: error@,
            },
            Event::Response { stream_id, status, headers } => EventView::Response {
                stream_id: stream_id@,
                status,
                headers: header_map::map_content(headers),
            },
            Event::Reset { stream_id, reason } => EventView::Reset {
                stream_id: stream_id@,
                reason,
            },
            Event::RecvClosed { stream_id } => EventView::RecvClosed { stream_id: stream_id@ },
            Event::Incoming(i) => EventView::Incoming(i@),
            Event::Opened { ticket, stream } => EventView::Opened {
                ticket,
                stream: match stream {
                    Ok((id, recv)) => Ok((id@, recv@)),
                    Err(e) => Err(e@),
                },
            },
            Event::Done { ticket, result } => EventView::Done {
                ticket,
                result: error::outcome(result),
            },
            Event::Granted { ticket, amount, reset } => EventView::Granted {
                ticket,
                amount: error::outcome(amount),
                reset,
            },
            Event::StreamGone { stream_id, reset } => EventView::StreamGone {
                stream_id: stream_id@,
                reset,
            },
        }
    }
}

/// A header list that is to be compressed and sent.
#[derive(Debug)]
pub struct HeaderJob {
    /// Target stream identifier.
    pub stream_id: StreamId,
    /// The fields.
    pub headers: Vec<HeaderPair>,
    /// Whether to set the END_STREAM flag.
    pub end_stream: bool,
    /// Where the result goes.
    pub response_tx: Ticket,
    /// The receiving end, where the headers open the stream.
    pub opens: Option<StreamRecv>,
}

/// A [`HeaderJob`] as plain values.
pub struct JobView {
    /// Target stream identifier.
    pub stream_id: u32,
    /// The fields.
    pub headers: Seq<(Seq<u8>, Seq<u8>)>,
    /// Whether to set the END_STREAM flag.
    pub end_stream: bool,
    /// Where the result goes.
    pub response_tx: Ticket,
    /// The receiving end, where the headers open the stream.
    pub opens: Option<RecvView>,
}

impl View for HeaderJob {
    type V = JobView;

    open spec fn view(&self) -> JobView {
        JobView {
            stream_id: self.stream_id@,
            headers: pairs(self.headers@),
            end_stream: self.end_stream,
            response_tx: self.response_tx,
            opens: match self.opens {
                Some(r) => Some(r@),
                None => None,
            },
        }
    }
}

/// Whether `t` is among `tickets`.
pub fn is_among(tickets: &[Ticket], t: Ticket) -> (r: bool)
    ensures
        r == tickets@.contains(t),
{
    let mut i: usize = 0;
    while i < tickets.len()
        invariant
            i <= tickets@.len(),
            forall|j: int| 0 <= j < i ==> tickets@[j] != t,
        decreases tickets@.len() - i,
    {
        if tickets[i].0 == t.0 {
            assert(tickets@[i as int] == t);
            return true;
        }
        i = i + 1;
    }
    false
}

} // verus!
