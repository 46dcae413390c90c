//! The handles of a stream, as both clients and servers use them.
//!
//! A handle turns what its user wants into a [`Command`] for the connection, and
//! makes sense of the reply. A reply is `None` where the connection is gone.

use crate::buf;
use crate::error;
use crate::error::{ErrorView, H2Error, Reason};
use crate::frame::StreamId;
use crate::proto::events::{Command, CommandView, InternalMsg, MsgView, Ticket};
use crate::proto::header_map;
use crate::text;
use bytes::Bytes;
use http::header::{HeaderMap, HeaderValue};
use vstd::prelude::*;
use vstd::string::*;

verus! {

/// What a reply comes to: where the connection is gone, an error that says `message`.
pub open spec fn reply_outcome<T>(
    reply: Option<Result<T, ErrorView>>,
    message: Seq<char>,
) -> Result<T, ErrorView> {
    match reply {
        Some(r) => r,
        None => Err(ErrorView::Protocol(message)),
    }
}

/// A reply with its error as a view.
pub open spec fn reply_view<T>(reply: Option<Result<T, H2Error>>) -> Option<
    Result<T, ErrorView>,
> {
    match reply {
        Some(r) => Some(error::outcome(r)),
        None => None,
    }
}

/// Makes sense of a reply: where the connection is gone, it is an error that says
/// `message`.
pub fn take_reply<T>(reply: Option<Result<T, H2Error>>, message: &str) -> (r: Result<T, H2Error>)
    ensures
        error::outcome(r) == reply_outcome(reply_view(reply), message@),
{
    match reply {
        Some(r) => r,
        None => Err(H2Error::Protocol(message.to_owned())),
    }
}

/// Handle for releasing recv flow control capacity on an HTTP/2 stream.
///
/// When data is received on a [`RecvStream`], the flow control window shrinks.
/// The application must call [`release_capacity`](Self::release_capacity) to
/// indicate that it has processed the data and the window can be replenished
/// via a WINDOW_UPDATE frame to the peer.
///
/// This gives applications back-pressure control: the peer cannot send more
/// data than the application is willing to buffer.
#[derive(Debug)]
pub struct RecvFlowControl {
    stream_id: StreamId,
    unreleased: u32,
}

/// A [`RecvFlowControl`] as plain values.
pub struct RecvFlowView {
    /// The stream.
    pub stream_id: u32,
    /// Bytes received but not yet released.
    pub unreleased: u32,
}

impl View for RecvFlowControl {
    type V = RecvFlowView;

    closed spec fn view(&self) -> RecvFlowView {
        RecvFlowView { stream_id: self.stream_id@, unreleased: self.unreleased }
    }
}

impl RecvFlowView {
    /// `n` more bytes were received.
    pub open spec fn received(self, n: u32) -> RecvFlowView {
        RecvFlowView { unreleased: (self.unreleased + n) as u32, ..self }
    }

    /// `sz` bytes are released; `None` where fewer are there to be released.
    pub open spec fn released(self, sz: usize) -> Option<RecvFlowView> {
        if sz <= self.unreleased {
            Some(RecvFlowView { unreleased: (self.unreleased - sz) as u32, ..self })
        } else {
            None
        }
    }
}

/// The text of the error for releasing more than was received.
pub open spec fn release_message(sz: nat, unreleased: nat) -> Seq<char> {
    "release_capacity("@ + text::digits(sz) + ") exceeds unreleased bytes ("@ + text::digits(
        unreleased,
    ) + ")"@
}

impl RecvFlowControl {
    /// Nothing was received on the stream yet.
    pub fn new(stream_id: StreamId) -> (f: RecvFlowControl)
        ensures
            f@ == (RecvFlowView { stream_id: stream_id@, unreleased: 0 }),
    {
        RecvFlowControl { stream_id, unreleased: 0 }
    }

    /// Bytes received but not yet released.
    pub fn unreleased(&self) -> (n: usize)
        ensures
            n == self@.unreleased,
    {
        self.unreleased as usize
    }

    /// Release `sz` bytes of flow control capacity back to the peer.
    ///
    /// What comes back is the message for the connection, which makes it send a
    /// WINDOW_UPDATE for this stream. `sz` must not exceed the number of unreleased
    /// bytes.
    pub fn release_capacity(&mut self, sz: usize) -> (r: Result<InternalMsg, H2Error>)
        ensures
            match old(self)@.released(sz) {
                Some(f) => {
                    &&& r matches Ok(m) && m@ == (MsgView::ReleaseCapacity {
                        stream_id: old(self)@.stream_id,
                        amount: sz as u32,
                    })
                    &&& final(self)@ == f
                },
                None => {
                    &&& r matches Err(e) && e@ == ErrorView::Protocol(
                        release_message(sz as nat, old(self)@.unreleased as nat),
                    )
                    &&& final(self)@ == old(self)@
                },
            },
    {
        if sz > self.unreleased as usize {
            let message = String::from_str("release_capacity(").concat(
                text::decimal(sz as u64).as_str(),
            ).concat(") exceeds unreleased bytes (").concat(
                text::decimal(self.unreleased as u64).as_str(),
            ).concat(")");
            return Err(H2Error::Protocol(message));
        }
        let amount: u32 = sz as u32;
        self.unreleased = self.unreleased - amount;
        Ok(InternalMsg::ReleaseCapacity { stream_id: self.stream_id, amount })
    }

    /// `amount` more bytes were received.
    pub fn add_unreleased(&mut self, amount: u32)
        requires
            old(self)@.unreleased + amount <= u32::MAX,
        ensures
            final(self)@ == old(self)@.received(amount),
    {
        self.unreleased = self.unreleased + amount;
    }
}

/// Handle for sending data and trailers on an HTTP/2 stream.
///
/// If dropped without sending a final frame with `end_of_stream: true` or
/// calling [`send_trailers`](Self::send_trailers), the stream is left
/// half-open from the peer's perspective. No `RST_STREAM` or `END_STREAM`
/// is sent automatically.
#[derive(Debug)]
pub struct SendStream {
    stream_id: StreamId,
    /// Bytes of send capacity currently reserved by the application.
    reserved: u32,
    /// Whether the connection has forgotten the stream after it was reset.
    reset: bool,
}

/// A [`SendStream`] as plain values.
pub struct SendView {
    /// The stream.
    pub stream_id: u32,
    /// Bytes of send capacity currently reserved by the application.
    pub reserved: u32,
    /// Whether the connection has forgotten the stream after it was reset.
    pub reset: bool,
}

impl View for SendStream {
    type V = SendView;

    closed spec fn view(&self) -> SendView {
        SendView { stream_id: self.stream_id@, reserved: self.reserved, reset: self.reset }
    }
}

/// How many bytes a request for `sz` is for: all of them, as far as they can be counted.
pub open spec fn reserve_target(sz: usize) -> u32 {
    if sz <= u32::MAX {
        sz as u32
    } else {
        u32::MAX
    }
}

impl SendView {
    /// How many bytes are missing to a reservation of `sz`.
    pub open spec fn missing(self, sz: usize) -> u32 {
        let target = reserve_target(sz);
        if self.reserved >= target {
            0
        } else {
            (target - self.reserved) as u32
        }
    }

    /// The handle after the connection has forgotten the stream, which was `reset` or not.
    pub open spec fn forgotten(self, reset: bool) -> SendView {
        SendView { reset: self.reset || reset, ..self }
    }

    /// What comes of a wait for send capacity: what is reserved now, or why nothing is;
    /// `None` where the stream was reset, as the reply says or as was known before, or where
    /// the connection is gone.
    pub open spec fn polled(self, reply: Option<Result<u32, ErrorView>>, reset: bool) -> Option<
        Result<usize, ErrorView>,
    > {
        match reply {
            Some(Ok(n)) => Some(Ok(self.granted(n).reserved as usize)),
            Some(Err(e)) => if reset || self.reset {
                None
            } else {
                Some(Err(e))
            },
            None => None,
        }
    }

    /// The handle after `n` more bytes were granted.
    pub open spec fn granted(self, n: u32) -> SendView {
        SendView { reserved: (self.reserved + n) as u32, ..self }
    }
}

impl SendStream {
    /// A handle on which nothing is reserved.
    pub fn new(stream_id: StreamId) -> (s: SendStream)
        ensures
            s@ == (SendView { stream_id: stream_id@, reserved: 0, reset: false }),
    {
        SendStream { stream_id, reserved: 0, reset: false }
    }

    /// Stream id.
    pub fn stream_id(&self) -> (id: StreamId)
        ensures
            id@ == self@.stream_id,
    {
        self.stream_id
    }

    /// Currently reserved send capacity in bytes.
    pub fn capacity(&self) -> (n: usize)
        ensures
            n == self@.reserved,
    {
        self.reserved as usize
    }

    /// Request send capacity on this stream.
    ///
    /// Asks the connection for up to `sz` bytes of send capacity, constrained
    /// by the stream-level and connection-level flow control windows. The
    /// granted capacity (which may be less than requested) is added to the
    /// internal reservation by [`capacity_reserved`](Self::capacity_reserved), and can be
    /// queried via [`capacity`](Self::capacity).
    ///
    /// This is **not additive**: calling `reserve_capacity(100)` then
    /// `reserve_capacity(200)` results in at most 200 reserved bytes, not 300.
    /// The second call replaces the prior reservation target.
    ///
    /// `None` where as much is reserved already.
    pub fn reserve_capacity(&self, sz: usize, response_tx: Ticket) -> (r: Option<Command>)
        ensures
            if self@.missing(sz) == 0 {
                r is None
            } else {
                r matches Some(c) && c@ == (CommandView::ReserveCapacity {
                    stream_id: self@.stream_id,
                    amount: self@.missing(sz),
                    response_tx,
                })
            },
    {
        let target: u32 = if sz <= u32::MAX as usize {
            sz as u32
        } else {
            u32::MAX
        };
        if self.reserved >= target {
            return None;
        }
        Some(
            Command::ReserveCapacity {
                stream_id: self.stream_id,
                amount: target - self.reserved,
                response_tx,
            },
        )
    }

    /// The reply to a request for send capacity: what was granted is reserved.
    pub fn capacity_reserved(&mut self, reply: Option<Result<u32, H2Error>>) -> (r: Result<
        (),
        H2Error,
    >)
        requires
            reply matches Some(Ok(n)) ==> old(self)@.reserved + n <= u32::MAX,
        ensures
            match reply_outcome(
                reply_view(reply),
                "connection closed during reserve_capacity"@,
            ) {
                Ok(n) => r is Ok && final(self)@ == old(self)@.granted(n),
                Err(e) => {
                    &&& r matches Err(error) && error@ == e
                    &&& final(self)@ == old(self)@
                },
            },
    {
        let granted: u32 = take_reply(reply, "connection closed during reserve_capacity")?;
        self.reserved = self.reserved + granted;
        Ok(())
    }

    /// Wait for send capacity to become available on this stream.
    ///
    /// `None` where some is reserved already; else the request for as much as there is,
    /// the reply to which goes to [`capacity_polled`](Self::capacity_polled).
    ///
    /// This is useful in a loop to send data as capacity becomes available,
    /// calling [`send_data`](Self::send_data) with each granted chunk.
    pub fn poll_capacity(&self, response_tx: Ticket) -> (r: Option<Command>)
        ensures
            if self@.reserved > 0 {
                r is None
            } else {
                r matches Some(c) && c@ == (CommandView::ReserveCapacity {
                    stream_id: self@.stream_id,
                    amount: u32::MAX,
                    response_tx,
                })
            },
    {
        if self.reserved > 0 {
            return None;
        }
        Some(
            Command::ReserveCapacity { stream_id: self.stream_id, amount: u32::MAX, response_tx },
        )
    }

    /// The reply to a wait for send capacity: the send capacity reserved now, or `None`
    /// if, as the reply says, the stream has been `reset`, or if the connection is gone.
    pub fn capacity_polled(
        &mut self,
        reply: Option<Result<u32, H2Error>>,
        reset: bool,
    ) -> (r: Option<Result<usize, H2Error>>)
        requires
            reply matches Some(Ok(n)) ==> old(self)@.reserved + n <= u32::MAX,
        ensures
            reply_view(r) == old(self)@.polled(reply_view(reply), reset),
            final(self)@ == match reply {
                Some(Ok(n)) => old(self)@.granted(n),
                _ => old(self)@,
            },
    {
        match reply {
            Some(Ok(granted)) => {
                self.reserved = self.reserved + granted;
                Some(Ok(self.reserved as usize))
            },
            Some(Err(e)) => {
                if reset || self.reset {
                    None
                } else {
                    Some(Err(e))
                }
            },
            None => None,
        }
    }

    /// The connection has forgotten the stream, which was `reset` or not.
    pub fn stream_gone(&mut self, reset: bool)
        ensures
            final(self)@ == old(self)@.forgotten(reset),
    {
        self.reset = self.reset || reset;
    }

    /// Send data on this stream. What was reserved is used up by it; sending without a
    /// reservation is allowed too.
    pub fn send_data(&mut self, data: Bytes, end_of_stream: bool, response_tx: Ticket) -> (c:
        Command)
        ensures
            c@ == (CommandView::SendData {
                stream_id: old(self)@.stream_id,
                data: buf::content(data),
                end_stream: end_of_stream,
                response_tx,
            }),
            final(self)@ == (SendView {
                reserved: if old(self)@.reserved >= buf::content(data).len() {
                    (old(self)@.reserved - buf::content(data).len()) as u32
                } else {
                    0
                },
                ..old(self)@
            }),
    {
        self.reserved = if self.reserved as usize >= data.len() {
            self.reserved - data.len() as u32
        } else {
            0
        };
        Command::SendData {
            stream_id: self.stream_id,
            data,
            end_stream: end_of_stream,
            response_tx,
        }
    }

    /// Send a RST_STREAM frame to reset this stream with the given reason.
    ///
    /// This immediately closes the stream in both directions.
    pub fn send_reset(&self, reason: Reason, response_tx: Ticket) -> (c: Command)
        ensures
            c@ == (CommandView::SendReset { stream_id: self@.stream_id, reason, response_tx }),
    {
        Command::SendReset { stream_id: self.stream_id, reason, response_tx }
    }

    /// Send trailers on this stream (implicitly sets END_STREAM).
    pub fn send_trailers(
        &mut self,
        trailers: &HeaderMap<HeaderValue>,
        response_tx: Ticket,
    ) -> (c: Command)
        ensures
            c@ matches CommandView::SendTrailers {
                stream_id,
                trailers: fields,
                response_tx: ticket,
            } && {
                &&& stream_id == old(self)@.stream_id
                &&& header_map::lists(fields, header_map::map_content(*trailers))
                &&& header_map::sendable(fields)
                &&& ticket == response_tx
            },
            final(self)@ == old(self)@,
    {
        let trailers = header_map::header_pairs(trailers);
        Command::SendTrailers { stream_id: self.stream_id, trailers, response_tx }
    }

    /// The reply to [`send_data`](Self::send_data).
    pub fn data_sent(&self, reply: Option<Result<(), H2Error>>) -> (r: Result<(), H2Error>)
        ensures
            error::outcome(r) == reply_outcome(
                reply_view(reply),
                "connection closed during send_data"@,
            ),
    {
        take_reply(reply, "connection closed during send_data")
    }

    /// The reply to [`send_reset`](Self::send_reset).
    pub fn reset_sent(&self, reply: Option<Result<(), H2Error>>) -> (r: Result<(), H2Error>)
        ensures
            error::outcome(r) == reply_outcome(
                reply_view(reply),
                "connection closed during send_reset"@,
            ),
    {
        take_reply(reply, "connection closed during send_reset")
    }

    /// The reply to [`send_trailers`](Self::send_trailers).
    pub fn trailers_sent(&self, reply: Option<Result<(), H2Error>>) -> (r: Result<(), H2Error>)
        ensures
            error::outcome(r) == reply_outcome(
                reply_view(reply),
                "connection closed during send_trailers"@,
            ),
    {
        take_reply(reply, "connection closed during send_trailers")
    }

    /// The reason code from a RST_STREAM frame, where one came before the stream ended.
    pub fn poll_reset(&self, reply: Option<Reason>) -> (r: Result<Reason, H2Error>)
        ensures
            error::outcome(r) == reset_outcome(reply),
    {
        take_reset(reply)
    }
}

/// What comes of a wait for the reset of a stream; a reply that never comes means that the
/// stream ended otherwise.
pub open spec fn reset_outcome(reply: Option<Reason>) -> Result<Reason, ErrorView> {
    match reply {
        Some(reason) => Ok(reason),
        None => Err(ErrorView::Protocol("stream closed without reset"@)),
    }
}

/// What comes of a wait for the reset of a stream.
pub(crate) fn take_reset(reply: Option<Reason>) -> (r: Result<Reason, H2Error>)
    ensures
        error::outcome(r) == reset_outcome(reply),
{
    match reply {
        Some(reason) => Ok(reason),
        None => Err(H2Error::Protocol("stream closed without reset".to_owned())),
    }
}

/// The error of a command that did not reach the connection.
pub fn undelivered() -> (e: H2Error)
    ensures
        e@ == ErrorView::connection(Reason::InternalError),
{
    H2Error::connection(Reason::InternalError)
}

/// Handle for receiving data and trailers on an HTTP/2 stream.
///
/// After receiving data via [`data()`](Self::data), call
/// [`flow_control`](Self::flow_control) then
/// [`release_capacity`](RecvFlowControl::release_capacity) to replenish the
/// peer's send window.
///
/// If dropped before consuming all data, unconsumed frames are silently
/// discarded.
#[derive(Debug)]
pub struct RecvStream {
    stream_id: StreamId,
    flow_control: RecvFlowControl,
}

/// A [`RecvStream`] as plain values.
pub struct RecvStreamView {
    /// The stream.
    pub stream_id: u32,
    /// Its flow control handle.
    pub flow_control: RecvFlowView,
}

impl View for RecvStream {
    type V = RecvStreamView;

    closed spec fn view(&self) -> RecvStreamView {
        RecvStreamView { stream_id: self.stream_id@, flow_control: self.flow_control@ }
    }
}

impl RecvStreamView {
    /// A handle on which nothing was received.
    pub open spec fn new(stream_id: u32) -> RecvStreamView {
        RecvStreamView { stream_id, flow_control: RecvFlowView { stream_id, unreleased: 0 } }
    }
}

impl RecvStream {
    /// A handle on which nothing was received.
    pub fn new(stream_id: StreamId) -> (s: RecvStream)
        ensures
            s@ == RecvStreamView::new(stream_id@),
    {
        RecvStream { stream_id, flow_control: RecvFlowControl::new(stream_id) }
    }

    /// The stream identifier.
    pub fn stream_id(&self) -> (id: StreamId)
        ensures
            id@ == self@.stream_id,
    {
        self.stream_id
    }

    /// Mutable reference to the recv flow control handle.
    pub fn flow_control(&mut self) -> (f: &mut RecvFlowControl)
        ensures
            f@ == old(self)@.flow_control,
            final(self)@ == (RecvStreamView { flow_control: final(f)@, ..old(self)@ }),
    {
        &mut self.flow_control
    }

    /// Receive the next chunk of data. Returns `None` when the stream ends.
    ///
    /// The received bytes are tracked as unreleased in the flow control handle.
    /// Call [`flow_control`](Self::flow_control) and
    /// [`release_capacity`](RecvFlowControl::release_capacity) after processing
    /// the data.
    pub fn data(&mut self, reply: Option<Result<Bytes, H2Error>>) -> (r: Option<
        Result<Bytes, H2Error>,
    >)
        requires
            reply matches Some(Ok(b)) ==> old(self)@.flow_control.unreleased + buf::content(b).len()
                <= u32::MAX,
        ensures
            r == reply,
            final(self)@ == match reply {
                Some(Ok(b)) => RecvStreamView {
                    flow_control: old(self)@.flow_control.received(buf::content(b).len() as u32),
                    ..old(self)@
                },
                _ => old(self)@,
            },
    {
        if let Some(Ok(b)) = &reply {
            self.flow_control.add_unreleased(b.len() as u32);
        }
        reply
    }
}

/// Exactly what was received can be released: releasing all of it brings the handle
/// back to where it was, and one byte more than is there is refused.
pub proof fn lemma_release_what_was_received(f: RecvFlowView, n: u32, sz: usize)
    requires
        f.unreleased + n <= u32::MAX,
    ensures
        f.received(n).released(n as usize) == Some(f),
        f.received(n).released(sz) is Some <==> sz <= f.unreleased + n,
        f.received(n).released(sz) matches Some(after) ==> after.unreleased + sz == f.unreleased
            + n,
{
}

/// Once the connection has forgotten a stream that was reset, no wait for send capacity on it
/// comes to an error.
pub proof fn lemma_reset_stream_has_no_capacity(
    s: SendView,
    reply: Option<Result<u32, ErrorView>>,
    reset: bool,
)
    ensures
        !(s.forgotten(true).polled(reply, reset) matches Some(Err(_))),
        !(s.polled(reply, true) matches Some(Err(_))),
{
}

/// A reservation is a target, not an addition: after a request for `sz` bytes was
/// granted in full or in part, at most `sz` bytes are reserved, or as many as before. Nothing
/// is requested exactly if as much is reserved already, or as much as can be counted.
pub proof fn lemma_reservation_not_additive(s: SendView, sz: usize, granted: u32)
    requires
        granted <= s.missing(sz),
    ensures
        s.reserved + granted <= u32::MAX,
        s.granted(granted).reserved <= sz || s.granted(granted).reserved == s.reserved,
        s.granted(granted).reserved == s.reserved + granted,
        s.missing(sz) == 0 <==> s.reserved >= sz || s.reserved == u32::MAX,
        s.reserved < sz <= u32::MAX ==> s.missing(sz) == sz - s.reserved,
        s.granted(s.missing(sz)).missing(sz) == 0,
{
}

/// An answer of the connection is passed on as it is; where none will come, that is an error with
/// a message of its own.
pub proof fn lemma_answers_are_passed_on(
    answer: Result<(), ErrorView>,
    reason: Reason,
    message: Seq<char>,
)
    ensures
        reply_outcome(Some(answer), message) == answer,
        reply_outcome::<()>(None, message) == Err::<(), ErrorView>(ErrorView::Protocol(message)),
        reset_outcome(Some(reason)) == Ok::<Reason, ErrorView>(reason),
        reset_outcome(None) matches Err(ErrorView::Protocol(_)),
{
}

/// A wait for send capacity comes to what is reserved in all, with what was granted; to the
/// error, where one was told and the stream was not reset; and to nothing otherwise.
pub proof fn lemma_wait_for_capacity(
    s: SendView,
    reply: Option<Result<u32, ErrorView>>,
    reset: bool,
)
    requires
        reply matches Some(Ok(n)) ==> s.reserved + n <= u32::MAX,
        s.reserved <= usize::MAX,
    ensures
        reply matches Some(Ok(n)) ==> (s.polled(reply, reset) matches Some(Ok(all)) && all
            == s.reserved + n),
        reply matches Some(Err(e)) ==> s.polled(reply, reset) == if reset || s.reset {
            None::<Result<usize, ErrorView>>
        } else {
            Some(Err::<usize, ErrorView>(e))
        },
        reply is None ==> s.polled(reply, reset) is None,
{
}

} // verus!
