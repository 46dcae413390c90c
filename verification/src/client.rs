//! The client's side: requests, and the responses to them.

use crate::buf;
use crate::builder;
use crate::builder::ClientBuilder;
use crate::error;
use crate::error::{ErrorView, H2Error};
use crate::frame::StreamId;
use crate::proto::events;
use crate::proto::events::{Command, CommandView, HeaderPair, Ticket};
use crate::proto::header_map;
use crate::proto::headers;
use crate::proto::streams::{RecvView, StreamRecv};
use crate::share;
use crate::share::{RecvStream, RecvStreamView, SendStream, SendView};
use bytes::Bytes;
use http::header::{HeaderMap, HeaderValue};
use vstd::prelude::*;
use vstd::string::*;
use vstd::utf8::*;

verus! {

/// Create a new client builder for configuring HTTP/2 connection settings.
pub fn builder() -> (b: ClientBuilder)
    ensures
        builder::is_default(b.config),
        b.config.settings.valid(),
{
    ClientBuilder::new()
}

/// The parts of a request that go into its headers.
#[derive(Debug)]
pub struct RequestHead {
    /// The method.
    pub method: String,
    /// The scheme of the URI, where it has one.
    pub scheme: Option<String>,
    /// The path and the query of the URI, where it has one.
    pub path_and_query: Option<String>,
    /// The authority of the URI, where it has one.
    pub authority: Option<String>,
    /// The header fields.
    pub headers: HeaderMap<HeaderValue>,
}

/// A [`RequestHead`] as plain values.
pub struct RequestHeadView {
    /// The method.
    pub method: Seq<char>,
    /// The scheme of the URI, where it has one.
    pub scheme: Option<Seq<char>>,
    /// The path and the query of the URI, where it has one.
    pub path_and_query: Option<Seq<char>>,
    /// The authority of the URI, where it has one.
    pub authority: Option<Seq<char>>,
    /// The header fields.
    pub headers: Map<Seq<u8>, Seq<Seq<u8>>>,
}

/// The text, if there is one.
pub open spec fn text_view(s: Option<String>) -> Option<Seq<char>> {
    match s {
        Some(s) => Some(s@),
        None => None,
    }
}

impl View for RequestHead {
    type V = RequestHeadView;

    open spec fn view(&self) -> RequestHeadView {
        RequestHeadView {
            method: self.method@,
            scheme: text_view(self.scheme),
            path_and_query: text_view(self.path_and_query),
            authority: text_view(self.authority),
            headers: header_map::map_content(self.headers),
        }
    }
}

/// A header field with text as its value.
pub open spec fn text_field(name: &str, value: Seq<char>) -> (Seq<u8>, Seq<u8>) {
    (name.spec_bytes(), encode_utf8(value))
}

impl RequestHeadView {
    /// The header fields of the request: the pseudo-headers first, with `https` and `/`
    /// where the URI has no scheme or path, then the `regular` ones.
    pub open spec fn fields(self, regular: Seq<(Seq<u8>, Seq<u8>)>) -> Seq<
        (Seq<u8>, Seq<u8>),
    > {
        seq![
            text_field(":method", self.method),
            text_field(":scheme", self.scheme.unwrap_or("https"@)),
            text_field(":path", self.path_and_query.unwrap_or("/"@)),
        ] + (match self.authority {
            Some(a) => seq![text_field(":authority", a)],
            None => Seq::empty(),
        }) + regular
    }

    /// Whether the request goes out as `fields`: its own header fields follow the
    /// pseudo-headers, in some order of their names.
    pub open spec fn goes_as(self, fields: Seq<(Seq<u8>, Seq<u8>)>) -> bool {
        exists|regular: Seq<(Seq<u8>, Seq<u8>)>| #[trigger]
            header_map::lists(regular, self.headers) && header_map::sendable(regular)
                && fields == self.fields(regular)
    }
}

/// A header field with text as its value.
pub(crate) fn make_field(name: &str, value: &str) -> (f: HeaderPair)
    ensures
        (buf::content(f.0), buf::content(f.1)) == text_field(name, value@),
{
    (Bytes::copy_from_slice(name.as_bytes()), Bytes::copy_from_slice(value.as_bytes()))
}

fn text_or<'a>(text: &'a Option<String>, otherwise: &'a str) -> (s: &'a str)
    ensures
        s@ == text_view(*text).unwrap_or(otherwise@),
{
    match text {
        Some(s) => s.as_str(),
        None => otherwise,
    }
}

/// What a client asks of its connection.
#[derive(Clone, Copy, Debug)]
pub struct SendRequest;

impl SendRequest {
    /// Wait until the connection can accept a new stream.
    ///
    /// Resolves when the number of active streams is below the peer's
    /// `MAX_CONCURRENT_STREAMS` limit, or returns an error if the connection
    /// is closing.
    ///
    /// Use this before [`send_request`](Self::send_request) to avoid getting a
    /// `RefusedStream` error when the limit has been reached.
    pub fn ready(&self, response_tx: Ticket) -> (c: Command)
        ensures
            c@ == (CommandView::PollReady { response_tx }),
    {
        Command::PollReady { response_tx }
    }

    /// Initiate a graceful shutdown by sending a GOAWAY frame.
    ///
    /// After calling this, no new streams can be opened. Existing streams
    /// will be allowed to complete, and the connection will close once all
    /// active streams are finished.
    pub fn shutdown(&self, response_tx: Ticket) -> (c: Command)
        ensures
            c@ == (CommandView::GoAway { response_tx }),
    {
        Command::GoAway { response_tx }
    }

    /// Set the target connection-level receive window size at runtime.
    ///
    /// If `size` is larger than the current connection receive window, a
    /// WINDOW_UPDATE frame is sent immediately for the difference. If smaller,
    /// the window shrinks naturally as data arrives.
    pub fn set_target_window_size(&self, size: u32, response_tx: Ticket) -> (c: Command)
        ensures
            c@ == (CommandView::SetTargetWindowSize { size, response_tx }),
    {
        Command::SetTargetWindowSize { size, response_tx }
    }

    /// Set the initial stream-level window size via a SETTINGS frame.
    ///
    /// This changes the INITIAL_WINDOW_SIZE for newly created streams and
    /// adjusts the receive windows of all existing open streams by the delta
    /// between the old and new values.
    pub fn set_initial_window_size(&self, size: u32, response_tx: Ticket) -> (c: Command)
        ensures
            c@ == (CommandView::SetInitialWindowSize { size, response_tx }),
    {
        Command::SetInitialWindowSize { size, response_tx }
    }

    /// Send an HTTP/2 request. The reply goes to [`request_sent`](Self::request_sent).
    pub fn send_request(
        &self,
        request: RequestHead,
        end_of_stream: bool,
        response_tx: Ticket,
    ) -> (c: Command)
        ensures
            c@ matches CommandView::NewStream { headers, end_stream, response_tx: ticket } && {
                &&& request@.goes_as(headers)
                &&& end_stream == end_of_stream
                &&& ticket == response_tx
            },
    {
        let regular = header_map::header_pairs(&request.headers);
        let ghost listed = events::pairs(regular@);
        assert(header_map::lists(listed, request@.headers));
        self.send_fields(request, regular, end_of_stream, response_tx)
    }

    /// Send an HTTP/2 request with `regular` as its own header fields, in this order.
    pub fn send_fields(
        &self,
        request: RequestHead,
        regular: Vec<HeaderPair>,
        end_of_stream: bool,
        response_tx: Ticket,
    ) -> (c: Command)
        ensures
            c@ == (CommandView::NewStream {
                headers: request@.fields(events::pairs(regular@)),
                end_stream: end_of_stream,
                response_tx,
            }),
    {
        let ghost wanted = request@.fields(events::pairs(regular@));
        let mut headers: Vec<HeaderPair> = Vec::new();
        headers.push(make_field(":method", request.method.as_str()));
        headers.push(make_field(":scheme", text_or(&request.scheme, "https")));
        headers.push(make_field(":path", text_or(&request.path_and_query, "/")));
        if let Some(authority) = &request.authority {
            headers.push(make_field(":authority", authority.as_str()));
        }
        let mut regular: Vec<HeaderPair> = regular;
        headers.append(&mut regular);
        assert(events::pairs(headers@) =~= wanted);
        Command::NewStream { headers, end_stream: end_of_stream, response_tx }
    }

    /// The reply to [`ready`](Self::ready), [`shutdown`](Self::shutdown),
    /// [`set_target_window_size`](Self::set_target_window_size) or
    /// [`set_initial_window_size`](Self::set_initial_window_size).
    pub fn answered(&self, reply: Option<Result<(), H2Error>>) -> (r: Result<(), H2Error>)
        ensures
            error::outcome(r) == share::reply_outcome(
                share::reply_view(reply),
                "connection closed"@,
            ),
    {
        share::take_reply(reply, "connection closed")
    }

    /// The reply to a request for a new stream: a [`ResponseFuture`], which resolves when
    /// the response headers arrive, and, if `end_of_stream` is false, a [`SendStream`] for
    /// sending the request body.
    pub fn request_sent(
        &self,
        reply: Option<Result<(StreamId, StreamRecv), H2Error>>,
        end_of_stream: bool,
    ) -> (r: Result<(ResponseFuture, Option<SendStream>), H2Error>)
        ensures
            match reply {
                Some(Ok((id, recv))) => {
                    &&& r matches Ok((future, body)) && future@ == (FutureView {
                        stream_id: id@,
                        stream_recv: Some(recv@),
                    }) && body is None == end_of_stream && (body matches Some(s) ==> s@ == (
                    SendView { stream_id: id@, reserved: 0, reset: false }))
                },
                Some(Err(e)) => r matches Err(error) && error@ == e@,
                None => r matches Err(error) && error@ == ErrorView::Protocol(
                    "connection closed"@,
                ),
            },
    {
        let (stream_id, stream_recv) = share::take_reply(reply, "connection closed")?;
        let future = ResponseFuture { stream_id, stream_recv: Some(stream_recv) };
        let body = if !end_of_stream {
            Some(SendStream::new(stream_id))
        } else {
            None
        };
        Ok((future, body))
    }
}

/// A request that was sent, and whose response has not come yet.
#[derive(Debug)]
pub struct ResponseFuture {
    stream_id: StreamId,
    stream_recv: Option<StreamRecv>,
}

/// A [`ResponseFuture`] as plain values.
pub struct FutureView {
    /// The stream.
    pub stream_id: u32,
    /// Its receiving end, until it was taken.
    pub stream_recv: Option<RecvView>,
}

impl View for ResponseFuture {
    type V = FutureView;

    closed spec fn view(&self) -> FutureView {
        FutureView {
            stream_id: self.stream_id@,
            stream_recv: match self.stream_recv {
                Some(r) => Some(r@),
                None => None,
            },
        }
    }
}

/// A response: its status, its header fields, and the handle that its body comes from.
#[derive(Debug)]
pub struct Response {
    /// The status.
    pub status: u16,
    /// The header fields.
    pub headers: HeaderMap<HeaderValue>,
    /// The body.
    pub body: RecvStream,
}

impl ResponseFuture {
    /// A request whose response has not come yet.
    pub fn new(stream_id: StreamId, stream_recv: Option<StreamRecv>) -> (f: ResponseFuture)
        ensures
            f@ == (FutureView {
                stream_id: stream_id@,
                stream_recv: match stream_recv {
                    Some(r) => Some(r@),
                    None => None,
                },
            }),
    {
        ResponseFuture { stream_id, stream_recv }
    }

    /// Whether response headers are still to come.
    pub fn awaits_headers(&self) -> (r: bool)
        ensures
            r == (self@.stream_recv matches Some(recv) && recv.with_headers),
    {
        match self.stream_recv {
            Some(r) => r.with_headers,
            None => false,
        }
    }

    /// The response, where `reply` are its headers. On a stream that has no response
    /// headers it is an empty one.
    pub fn await_response(self, reply: Option<Result<(u16, HeaderMap<HeaderValue>), H2Error>>) -> (r:
        Result<Response, H2Error>)
        ensures
            match self@.stream_recv {
                None => r matches Err(e) && e@ == ErrorView::Protocol("response already consumed"@),
                Some(recv) => if !recv.with_headers {
                    r matches Ok(response) && response.status == 200 && header_map::map_content(
                        response.headers,
                    ) == header_map::no_fields() && response.body@ == RecvStreamView::new(
                        self@.stream_id,
                    )
                } else {
                    match reply {
                        Some(Ok((status, fields))) => r matches Ok(response) && response.status
                            == status && response.headers == fields && response.body@
                            == RecvStreamView::new(self@.stream_id),
                        Some(Err(e)) => r matches Err(error) && error@ == e@,
                        None => r matches Err(error) && error@ == ErrorView::Protocol(
                            "connection closed before response"@,
                        ),
                    }
                },
            },
    {
        let stream_recv = match self.stream_recv {
            Some(r) => r,
            None => {
                return Err(H2Error::Protocol("response already consumed".to_owned()));
            },
        };
        let (status, headers) = if stream_recv.with_headers {
            share::take_reply(reply, "connection closed before response")?
        } else {
            (200, header_map::new_map())
        };
        Ok(Response { status, headers, body: RecvStream::new(self.stream_id) })
    }
}

/// A request that this library sends passes the validation of pseudo-headers, as long as
/// its path is not empty.
pub proof fn lemma_request_is_well_formed(
    head: RequestHeadView,
    fields: Seq<(Seq<u8>, Seq<u8>)>,
)
    requires
        head.goes_as(fields),
        head.path_and_query matches Some(p) ==> p.len() > 0,
    ensures
        headers::pseudo_fault(headers::as_received(fields), true) is None,
{
    let regular = choose|regular: Seq<(Seq<u8>, Seq<u8>)>| #[trigger]
        header_map::lists(regular, head.headers) && header_map::sendable(regular) && fields
            == head.fields(regular);
    header_map::lemma_sendable_is_plain(regular);
    let received = headers::as_received(fields);
    let n: int = if head.authority is Some {
        4
    } else {
        3
    };
    let path = head.path_and_query.unwrap_or("/"@);
    reveal_strlit("/");
    assert(encode_utf8(path).len() > 0) by {
        encode_utf8_first_scalar(path);
    }
    headers::lemma_names_differ();
    headers::lemma_colon_names();
    headers::lemma_request_rules(received);
    assert(fields.len() == n + regular.len());
    assert(received[0].is(":method"));
    assert(received[1].is(":scheme"));
    assert(received[2].is(":path"));
    assert(n == 4 ==> received[3].is(":authority"));
    assert forall|i: int| n <= i < received.len() implies !(
    #[trigger] received[i]).is_pseudo() by {
        assert(fields[i] == regular[i - n]);
    }
    assert(headers::has(received, ":method"));
    assert(headers::has(received, ":scheme"));
    assert(headers::has(received, ":path"));
}

} // verus!
