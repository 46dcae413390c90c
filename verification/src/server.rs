//! The server's side: requests that come in, and the responses to them.

use crate::buf;
use crate::builder;
use crate::builder::ServerBuilder;
use crate::client;
use crate::error;
use crate::error::{ErrorView, H2Error, Reason};
use crate::frame::StreamId;
use crate::proto::events;
use crate::proto::events::{
    Command, CommandView, HeaderPair, IncomingStream, IncomingView, Ticket,
};
use crate::proto::header_map;
use crate::proto::headers;
use crate::proto::headers::{DecodedHeader, FieldView};
use crate::share;
use crate::share::{RecvStream, RecvStreamView, SendStream, SendView};
use crate::text;
use http::header::{HeaderMap, HeaderValue};
use http::{Method, Uri};
use vstd::prelude::*;
use vstd::string::*;
use vstd::utf8::*;

verus! {

/// Create a new server builder for configuring HTTP/2 connection settings.
pub fn builder() -> (b: ServerBuilder)
    ensures
        builder::is_default(b.config),
        b.config.settings.valid(),
{
    ServerBuilder::new()
}

/// Whether `s` can be a method.
pub open spec fn valid_method(s: Seq<u8>) -> bool {
    s.len() > 0 && forall|i: int| 0 <= i < s.len() ==> header_map::is_token_byte(#[trigger] s[i])
}

/// ASCII bytes as text.
pub open spec fn ascii_text(s: Seq<u8>) -> Seq<char> {
    s.map_values(|b: u8| b as char)
}

/// `Method::from_bytes`: it succeeds on one or more token bytes and on nothing else, and
/// the method is spelled as they are. Otherwise the error says "invalid HTTP method".
#[verifier::external_body]
fn parse_method(s: &[u8]) -> (r: Result<String, String>)
    ensures
        match r {
            Ok(m) => valid_method(s@) && m@ == ascii_text(s@),
            Err(e) => !valid_method(s@) && e@ == "invalid HTTP method"@,
        },
{
    Method::from_bytes(s).map(|m| m.as_str().to_string()).map_err(|e| e.to_string())
}

/// What is wrong with a text that is to be a URI, in the words of the parser; `None`
/// where it is one.
pub uninterp spec fn uri_fault(s: Seq<char>) -> Option<Seq<char>>;

/// `<Uri as FromStr>::from_str`: what it says of the text, in the words of its error.
#[verifier::external_body]
fn check_uri(s: &str) -> (r: Option<String>)
    ensures
        match r {
            Some(e) => uri_fault(s@) == Some(e@),
            None => uri_fault(s@) is None,
        },
{
    s.parse::<Uri>().err().map(|e| e.to_string())
}

/// Bytes as text, with a replacement character for what is no text.
pub uninterp spec fn utf8_lossy(s: Seq<u8>) -> Seq<char>;

/// `String::from_utf8_lossy`: the text of the bytes. What is valid UTF-8 stays as it is.
#[verifier::external_body]
fn lossy_text(s: &[u8]) -> (t: String)
    ensures
        t@ == utf8_lossy(s@),
        valid_utf8(s@) ==> t@ == decode_utf8(s@),
{
    String::from_utf8_lossy(s).to_string()
}

/// The value of the last of the first `n` fields that is called `name`.
pub open spec fn last_value(fields: Seq<FieldView>, n: int, name: &str) -> Option<Seq<u8>>
    decreases n,
{
    if n <= 0 {
        None
    } else if fields[n - 1].is(name) {
        Some(fields[n - 1].value)
    } else {
        last_value(fields, n - 1, name)
    }
}

/// Whether every `:method` field holds a method.
pub open spec fn methods_valid(fields: Seq<FieldView>) -> bool {
    forall|i: int|
        0 <= i < fields.len() && (#[trigger] fields[i]).is(":method") ==> valid_method(
            fields[i].value,
        )
}

/// The text of a URI with these parts: absolute where there is an authority, with
/// `https` where there is no scheme, and `/` where there is no path.
pub open spec fn uri_text(
    scheme: Option<Seq<char>>,
    authority: Option<Seq<char>>,
    path: Option<Seq<char>>,
) -> Seq<char> {
    let path = path.unwrap_or("/"@);
    match authority {
        Some(a) => scheme.unwrap_or("https"@) + "://"@ + a + path,
        None => path,
    }
}

/// Bytes as text: what is valid UTF-8 stays as it is.
pub open spec fn lossy(s: Seq<u8>) -> Seq<char> {
    if valid_utf8(s) {
        decode_utf8(s)
    } else {
        utf8_lossy(s)
    }
}

/// The text of a field's value, if there is the field.
pub open spec fn lossy_value(fields: Seq<FieldView>, name: &str) -> Option<Seq<char>> {
    match last_value(fields, fields.len() as int, name) {
        Some(v) => Some(lossy(v)),
        None => None,
    }
}

/// The text of the URI that a request names.
pub open spec fn request_uri(fields: Seq<FieldView>) -> Seq<char> {
    uri_text(
        lossy_value(fields, ":scheme"),
        lossy_value(fields, ":authority"),
        lossy_value(fields, ":path"),
    )
}

/// The method of a request: GET where none is named.
pub open spec fn request_method(fields: Seq<FieldView>) -> Seq<char> {
    match last_value(fields, fields.len() as int, ":method") {
        Some(v) => ascii_text(v),
        None => "GET"@,
    }
}

/// A request: its method, its URI, its header fields, and the handle that its body comes
/// from.
#[derive(Debug)]
pub struct Request {
    /// The method.
    pub method: String,
    /// The URI.
    pub uri: String,
    /// The header fields.
    pub headers: HeaderMap<HeaderValue>,
    /// The body.
    pub body: RecvStream,
}

/// A [`Request`] as plain values.
pub struct RequestView {
    /// The method.
    pub method: Seq<char>,
    /// The URI.
    pub uri: Seq<char>,
    /// The header fields.
    pub headers: Map<Seq<u8>, Seq<Seq<u8>>>,
    /// The body.
    pub body: RecvStreamView,
}

impl View for Request {
    type V = RequestView;

    open spec fn view(&self) -> RequestView {
        RequestView {
            method: self.method@,
            uri: self.uri@,
            headers: header_map::map_content(self.headers),
            body: self.body@,
        }
    }
}

/// The request that came in, where `uri` is the text of its URI and `fault` what is wrong
/// with that.
pub open spec fn request_of(
    incoming: IncomingView,
    uri: Seq<char>,
    fault: Option<Seq<char>>,
) -> Result<RequestView, ErrorView> {
    let fields = incoming.headers;
    if !methods_valid(fields) {
        Err(ErrorView::Protocol("invalid method: "@ + "invalid HTTP method"@))
    } else {
        match fault {
            Some(m) => Err(ErrorView::Protocol("invalid URI: "@ + m)),
            None => Ok(
                RequestView {
                    method: request_method(fields),
                    uri,
                    headers: header_map::header_content(fields),
                    body: RecvStreamView::new(incoming.stream_id),
                },
            ),
        }
    }
}

/// Puts the text of a URI together.
pub fn make_uri(scheme: Option<String>, authority: Option<String>, path: Option<String>) -> (s:
    String)
    ensures
        s@ == uri_text(
            client::text_view(scheme),
            client::text_view(authority),
            client::text_view(path),
        ),
{
    let path = match path {
        Some(p) => p,
        None => "/".to_owned(),
    };
    match authority {
        Some(a) => {
            let scheme = match scheme {
                Some(s) => s,
                None => "https".to_owned(),
            };
            scheme.concat("://").concat(a.as_str()).concat(path.as_str())
        },
        None => path,
    }
}

/// The value of the last field that is called `name`.
fn find_last<'a>(fields: &'a Vec<DecodedHeader>, name: &str) -> (r: Option<&'a [u8]>)
    ensures
        match r {
            Some(v) => last_value(headers::views(fields@), fields@.len() as int, name) == Some(v@),
            None => last_value(headers::views(fields@), fields@.len() as int, name) is None,
        },
{
    let ghost all = headers::views(fields@);
    let mut n: usize = fields.len();
    while n > 0
        invariant
            all == headers::views(fields@),
            n <= fields@.len(),
            last_value(all, fields@.len() as int, name) == last_value(all, n as int, name),
        decreases n,
    {
        let dh = &fields[n - 1];
        assert(all[n - 1] == dh@);
        if text::is_text(buf::as_slice(&dh.name), name) {
            return Some(buf::as_slice(&dh.value));
        }
        n = n - 1;
    }
    None
}

fn find_last_text(fields: &Vec<DecodedHeader>, name: &str) -> (r: Option<String>)
    ensures
        client::text_view(r) == lossy_value(headers::views(fields@), name),
{
    match find_last(fields, name) {
        Some(v) => Some(lossy_text(v)),
        None => None,
    }
}

/// The method of a request.
fn find_method(fields: &Vec<DecodedHeader>) -> (r: Result<String, H2Error>)
    ensures
        if methods_valid(headers::views(fields@)) {
            r matches Ok(m) && m@ == request_method(headers::views(fields@))
        } else {
            r matches Err(e) && e@ == ErrorView::Protocol(
                "invalid method: "@ + "invalid HTTP method"@,
            )
        },
{
    let ghost all = headers::views(fields@);
    let mut method: Option<String> = None;
    let mut i: usize = 0;
    while i < fields.len()
        invariant
            all == headers::views(fields@),
            i <= fields@.len(),
            forall|j: int|
                0 <= j < i && (#[trigger] all[j]).is(":method") ==> valid_method(all[j].value),
            match method {
                Some(m) => last_value(all, i as int, ":method") matches Some(v) && m@ == ascii_text(
                    v,
                ),
                None => last_value(all, i as int, ":method") is None,
            },
        decreases fields@.len() - i,
    {
        let dh = &fields[i];
        assert(all[i as int] == dh@);
        if text::is_text(buf::as_slice(&dh.name), ":method") {
            match parse_method(buf::as_slice(&dh.value)) {
                Ok(m) => {
                    method = Some(m);
                },
                Err(e) => {
                    return Err(
                        H2Error::Protocol(String::from_str("invalid method: ").concat(e.as_str())),
                    );
                },
            }
        }
        i = i + 1;
    }
    match method {
        Some(m) => Ok(m),
        None => Ok("GET".to_owned()),
    }
}

/// What a server asks of its connection.
#[derive(Clone, Copy, Debug)]
pub struct ServerConnection;

impl ServerConnection {
    /// Initiate a graceful shutdown by sending a GOAWAY frame.
    ///
    /// After calling this, no new streams will be accepted. Existing streams
    /// will be allowed to complete, and the connection will close once all
    /// active streams are finished.
    pub fn shutdown(&self, response_tx: Ticket) -> (c: Command)
        ensures
            c@ == (CommandView::GoAway { response_tx }),
    {
        Command::GoAway { response_tx }
    }

    /// Initiate an abrupt shutdown by sending a GOAWAY frame with an error
    /// reason.
    ///
    /// Unlike [`shutdown`](Self::shutdown), this immediately closes all open
    /// streams with errors and terminates the connection without waiting for
    /// in-flight streams to complete.
    pub fn abrupt_shutdown(&self, reason: Reason, response_tx: Ticket) -> (c: Command)
        ensures
            c@ == (CommandView::AbruptShutdown { reason, response_tx }),
    {
        Command::AbruptShutdown { reason, response_tx }
    }

    /// Set the target connection-level receive window size at runtime.
    ///
    /// If `size` is larger than the current connection receive window, a
    /// WINDOW_UPDATE frame is sent immediately for the difference. If smaller,
    /// the window shrinks naturally as data arrives.
    pub fn set_target_window_size(&self, size: u32, response_tx: Ticket) -> (c: Command)
        ensures
            c@ == (CommandView::SetTargetWindowSize { size, response_tx }),
    {
        Command::SetTargetWindowSize { size, response_tx }
    }

    /// Set the initial stream-level window size via a SETTINGS frame.
    ///
    /// This changes the INITIAL_WINDOW_SIZE for newly created streams and
    /// adjusts the receive windows of all existing open streams by the delta
    /// between the old and new values.
    pub fn set_initial_window_size(&self, size: u32, response_tx: Ticket) -> (c: Command)
        ensures
            c@ == (CommandView::SetInitialWindowSize { size, response_tx }),
    {
        Command::SetInitialWindowSize { size, response_tx }
    }

    /// The reply to [`shutdown`](Self::shutdown),
    /// [`abrupt_shutdown`](Self::abrupt_shutdown),
    /// [`set_target_window_size`](Self::set_target_window_size) or
    /// [`set_initial_window_size`](Self::set_initial_window_size).
    pub fn answered(&self, reply: Option<Result<(), H2Error>>) -> (r: Result<(), H2Error>)
        ensures
            error::outcome(r) == share::reply_outcome(
                share::reply_view(reply),
                "connection closed"@,
            ),
    {
        share::take_reply(reply, "connection closed")
    }

    /// How the connection ended: cleanly, or with the error that caused it to terminate.
    pub fn closed(&self, reply: Option<Result<(), H2Error>>) -> (r: Result<(), H2Error>)
        ensures
            error::outcome(r) == share::reply_outcome(
                share::reply_view(reply),
                "connection task dropped"@,
            ),
    {
        share::take_reply(reply, "connection task dropped")
    }

    /// Accept the next incoming request stream; `None` when the connection is closed.
    pub fn accept(&self, next: Option<Result<IncomingStream, H2Error>>) -> (r: Option<
        Result<(Request, SendResponse), H2Error>,
    >)
        requires
            next matches Some(Ok(i)) ==> header_map::fits(headers::views(i.headers@)),
        ensures
            match next {
                Some(Ok(i)) => r matches Some(request) && is_request(
                    request,
                    i@,
                    request_of(
                        i@,
                        request_uri(i@.headers),
                        uri_fault(request_uri(i@.headers)),
                    ),
                ),
                Some(Err(e)) => r matches Some(Err(error)) && error@ == e@,
                None => r is None,
            },
    {
        match next {
            Some(Ok(incoming)) => Some(self.build_request(incoming)),
            Some(Err(e)) => Some(Err(e)),
            None => None,
        }
    }

    /// The request that came in, and the handle for answering it.
    pub fn build_request(&self, incoming: IncomingStream) -> (r: Result<
        (Request, SendResponse),
        H2Error,
    >)
        requires
            header_map::fits(headers::views(incoming.headers@)),
        ensures
            is_request(
                r,
                incoming@,
                request_of(
                    incoming@,
                    request_uri(incoming@.headers),
                    uri_fault(request_uri(incoming@.headers)),
                ),
            ),
    {
        let fields = &incoming.headers;
        let uri = make_uri(
            find_last_text(fields, ":scheme"),
            find_last_text(fields, ":authority"),
            find_last_text(fields, ":path"),
        );
        let fault = check_uri(uri.as_str());
        self.request_with_uri(incoming, uri, fault)
    }

    /// The request that came in, where `uri` is the text of its URI and `fault` what is
    /// wrong with it; and the handle for answering it.
    pub fn request_with_uri(
        &self,
        incoming: IncomingStream,
        uri: String,
        fault: Option<String>,
    ) -> (r: Result<(Request, SendResponse), H2Error>)
        requires
            header_map::fits(headers::views(incoming.headers@)),
        ensures
            is_request(r, incoming@, request_of(incoming@, uri@, client::text_view(fault))),
    {
        let method = find_method(&incoming.headers)?;
        if let Some(e) = fault {
            return Err(H2Error::Protocol(String::from_str("invalid URI: ").concat(e.as_str())));
        }
        let map = header_map::headers_to_header_map(incoming.headers.as_slice());
        let request = Request {
            method,
            uri,
            headers: map,
            body: RecvStream::new(incoming.stream_id),
        };
        Ok((request, SendResponse { stream_id: incoming.stream_id }))
    }
}

/// Whether `r` is what `wanted` says: the request with the handle of its stream, or the
/// error.
pub open spec fn is_request(
    r: Result<(Request, SendResponse), H2Error>,
    incoming: IncomingView,
    wanted: Result<RequestView, ErrorView>,
) -> bool {
    match wanted {
        Ok(v) => r matches Ok((request, handle)) && request@ == v && handle@ == incoming.stream_id,
        Err(e) => r matches Err(error) && error@ == e,
    }
}

/// The parts of a response that go into its headers.
#[derive(Debug)]
pub struct ResponseHead {
    /// The status.
    pub status: u16,
    /// The header fields.
    pub headers: HeaderMap<HeaderValue>,
}

impl ResponseHead {
    /// The header fields of the response: the status, then the `regular` ones.
    pub open spec fn fields(self, regular: Seq<(Seq<u8>, Seq<u8>)>) -> Seq<
        (Seq<u8>, Seq<u8>),
    > {
        seq![client::text_field(":status", text::digits(self.status as nat))] + regular
    }

    /// Whether the response goes out as `fields`: its own header fields follow the
    /// status, in some order of their names.
    pub open spec fn goes_as(self, fields: Seq<(Seq<u8>, Seq<u8>)>) -> bool {
        exists|regular: Seq<(Seq<u8>, Seq<u8>)>| #[trigger]
            header_map::lists(regular, header_map::map_content(self.headers))
                && header_map::sendable(regular) && fields == self.fields(regular)
    }
}

/// Handle for sending a response on a server stream.
///
/// If dropped without calling [`send_response`](Self::send_response), no
/// response headers are sent. The peer will eventually observe a timeout or
/// connection close.
#[derive(Debug)]
pub struct SendResponse {
    stream_id: StreamId,
}

impl View for SendResponse {
    type V = u32;

    closed spec fn view(&self) -> u32 {
        self.stream_id@
    }
}

impl SendResponse {
    /// The stream identifier.
    pub fn stream_id(&self) -> (id: StreamId)
        ensures
            id@ == self@,
    {
        self.stream_id
    }

    /// Send the response headers. The reply goes to
    /// [`response_sent`](Self::response_sent).
    pub fn send_response(
        &mut self,
        response: ResponseHead,
        end_of_stream: bool,
        response_tx: Ticket,
    ) -> (c: Command)
        ensures
            c@ matches CommandView::SendHeaders {
                stream_id,
                headers,
                end_stream,
                response_tx: ticket,
            } && {
                &&& stream_id == old(self)@
                &&& response.goes_as(headers)
                &&& end_stream == end_of_stream
                &&& ticket == response_tx
            },
            final(self)@ == old(self)@,
    {
        let regular = header_map::header_pairs(&response.headers);
        let ghost listed = events::pairs(regular@);
        assert(header_map::lists(listed, header_map::map_content(response.headers)));
        self.send_fields(response, regular, end_of_stream, response_tx)
    }

    /// Send the response headers with `regular` as the response's own header fields, in
    /// this order.
    pub fn send_fields(
        &self,
        response: ResponseHead,
        regular: Vec<HeaderPair>,
        end_of_stream: bool,
        response_tx: Ticket,
    ) -> (c: Command)
        ensures
            c@ == (CommandView::SendHeaders {
                stream_id: self@,
                headers: response.fields(events::pairs(regular@)),
                end_stream: end_of_stream,
                response_tx,
            }),
    {
        let ghost wanted = response.fields(events::pairs(regular@));
        let mut headers: Vec<HeaderPair> = Vec::new();
        headers.push(client::make_field(":status", text::decimal(response.status as u64).as_str()));
        let mut regular: Vec<HeaderPair> = regular;
        headers.append(&mut regular);
        assert(events::pairs(headers@) =~= wanted);
        Command::SendHeaders {
            stream_id: self.stream_id,
            headers,
            end_stream: end_of_stream,
            response_tx,
        }
    }

    /// The reply to response headers: a `SendStream` if `end_of_stream` is false (for
    /// sending response body).
    pub fn response_sent(&self, reply: Option<Result<(), H2Error>>, end_of_stream: bool) -> (r:
        Result<Option<SendStream>, H2Error>)
        ensures
            match share::reply_outcome(share::reply_view(reply), "connection closed"@) {
                Ok(_) => r matches Ok(body) && body is None == end_of_stream && (body matches Some(
                    s,
                ) ==> s@ == (SendView { stream_id: self@, reserved: 0, reset: false })),
                Err(e) => r matches Err(error) && error@ == e,
            },
    {
        share::take_reply(reply, "connection closed")?;
        if end_of_stream {
            Ok(None)
        } else {
            Ok(Some(SendStream::new(self.stream_id)))
        }
    }

    /// The reason code from a RST_STREAM frame, where one came before the stream or the
    /// connection ended.
    pub fn poll_reset(&self, reply: Option<Reason>) -> (r: Result<Reason, H2Error>)
        ensures
            error::outcome(r) == share::reset_outcome(reply),
    {
        share::take_reset(reply)
    }
}

/// A response that this library sends passes the validation of pseudo-headers.
pub proof fn lemma_response_is_well_formed(
    head: ResponseHead,
    fields: Seq<(Seq<u8>, Seq<u8>)>,
)
    requires
        head.goes_as(fields),
    ensures
        headers::pseudo_fault(headers::as_received(fields), false) is None,
{
    let regular = choose|regular: Seq<(Seq<u8>, Seq<u8>)>| #[trigger]
        header_map::lists(regular, header_map::map_content(head.headers))
            && header_map::sendable(regular) && fields == head.fields(regular);
    header_map::lemma_sendable_is_plain(regular);
    let received = headers::as_received(fields);
    headers::lemma_names_differ();
    headers::lemma_colon_names();
    headers::lemma_response_rules(received);
    assert(received[0].is(":status"));
    assert forall|i: int| 1 <= i < received.len() implies !(
    #[trigger] received[i]).is_pseudo() by {
        assert(fields[i] == regular[i - 1]);
    }
    assert(headers::has(received, ":status"));
}

proof fn lemma_last_value_among_first(fields: Seq<FieldView>, k: int, n: int, name: &str)
    requires
        0 <= k <= n <= fields.len(),
        forall|i: int| k <= i < n ==> !(#[trigger] fields[i]).is(name),
    ensures
        last_value(fields, n, name) == last_value(fields, k, name),
    decreases n - k,
{
    if k < n {
        lemma_last_value_among_first(fields, k, n - 1, name);
    }
}

proof fn lemma_content_behind(fields: Seq<FieldView>, rest: Seq<FieldView>, k: int, n: int)
    requires
        0 <= k,
        0 <= n <= rest.len(),
        fields.len() == k + rest.len(),
        forall|i: int| 0 <= i < k ==> (#[trigger] fields[i]).is_pseudo(),
        forall|i: int| 0 <= i < rest.len() ==> fields[k + i] == #[trigger] rest[i],
    ensures
        header_map::content_of_first(fields, k + n) == header_map::content_of_first(rest, n),
    decreases k + n,
{
    if n > 0 {
        lemma_content_behind(fields, rest, k, n - 1);
        assert(fields[k + (n - 1)] == rest[n - 1]);
    } else if k > 0 {
        lemma_pseudo_leave_nothing(fields, k);
    }
}

proof fn lemma_pseudo_leave_nothing(fields: Seq<FieldView>, k: int)
    requires
        0 <= k <= fields.len(),
        forall|i: int| 0 <= i < k ==> (#[trigger] fields[i]).is_pseudo(),
    ensures
        header_map::content_of_first(fields, k) == header_map::no_fields(),
    decreases k,
{
    if k > 0 {
        lemma_pseudo_leave_nothing(fields, k - 1);
    }
}

proof fn lemma_ascii_bytes_are_ascii_text(s: Seq<char>)
    requires
        forall|i: int| 0 <= i < encode_utf8(s).len() ==> #[trigger] encode_utf8(s)[i] < 0x80,
    ensures
        is_ascii_chars(s),
    decreases s.len(),
{
    reveal_with_fuel(encode_utf8, 2);
    if s.len() > 0 {
        let first = encode_scalar(s[0] as u32);
        let rest = encode_utf8(s.drop_first());
        assert(encode_utf8(s) == first + rest);
        assert forall|i: int| 0 <= i < rest.len() implies #[trigger] rest[i] < 0x80 by {
            assert(encode_utf8(s)[first.len() + i] == rest[i]);
        }
        lemma_ascii_bytes_are_ascii_text(s.drop_first());
        assert(encode_utf8(s)[0] == first[0]);
        let c = s[0] as u32;
        assert(0xC0 | ((c >> 6) & 0x1F) as u8 >= 0x80u8) by (bit_vector);
        assert(0xE0 | ((c >> 12) & 0x0F) as u8 >= 0x80u8) by (bit_vector);
        assert(0xF0 | ((c >> 18) & 0x7) as u8 >= 0x80u8) by (bit_vector);
        assert(has_width_1_encoding(c));
        char_u32_cast(s[0], c);
        assert forall|i: int| 0 <= i < s.len() implies '\0' <= #[trigger] s[i] <= '\u{7f}' by {
            if i > 0 {
                assert(s.drop_first()[i - 1] == s[i]);
            }
        }
    }
}

/// A request arrives as it was sent: what a server makes of the header fields that a client
/// sends is the client's method, its URI, with `https` and `/` where it had no scheme or
/// path, and its header fields, if none of them has a quotation mark in its name or a zero
/// in its name or value. It is refused exactly if the method is none, or if what the URI
/// comes to is none.
pub proof fn lemma_request_arrives_as_sent(
    head: client::RequestHeadView,
    fields: Seq<(Seq<u8>, Seq<u8>)>,
    incoming: IncomingView,
)
    requires
        head.goes_as(fields),
        header_map::clean(head.headers),
        incoming.headers == headers::as_received(fields),
    ensures
        ({
            let uri = uri_text(head.scheme, head.authority, head.path_and_query);
            &&& request_uri(incoming.headers) == uri
            &&& request_of(incoming, uri, uri_fault(uri)) == if !valid_method(
                encode_utf8(head.method),
            ) {
                Err(ErrorView::Protocol("invalid method: "@ + "invalid HTTP method"@))
            } else {
                match uri_fault(uri) {
                    Some(m) => Err(ErrorView::Protocol("invalid URI: "@ + m)),
                    None => Ok(
                        RequestView {
                            method: head.method,
                            uri,
                            headers: head.headers,
                            body: RecvStreamView::new(incoming.stream_id),
                        },
                    ),
                }
            }
        }),
{
    broadcast use encode_utf8_decode_utf8, encode_utf8_valid_utf8;

    let regular = choose|regular: Seq<(Seq<u8>, Seq<u8>)>| #[trigger]
        header_map::lists(regular, head.headers) && header_map::sendable(regular) && fields
            == head.fields(regular);
    header_map::lemma_sendable_is_plain(regular);
    let received = headers::as_received(fields);
    let rest = headers::as_received(regular);
    let k: int = if head.authority is Some {
        4
    } else {
        3
    };
    let n = received.len() as int;
    headers::lemma_names_differ();
    headers::lemma_colon_names();
    assert(fields.len() == k + regular.len());
    assert(received[0].is(":method"));
    assert(received[1].is(":scheme"));
    assert(received[2].is(":path"));
    assert(k == 4 ==> received[3].is(":authority"));
    assert forall|i: int| 0 <= i < rest.len() implies received[k + i] == #[trigger] rest[i] by {
        assert(fields[k + i] == regular[i]);
    }
    assert forall|i: int| k <= i < n implies !(#[trigger] received[i]).is_pseudo() by {
        assert(fields[i] == regular[i - k]);
    }
    lemma_last_value_among_first(received, 1, n, ":method");
    lemma_last_value_among_first(received, 2, n, ":scheme");
    lemma_last_value_among_first(received, 3, n, ":path");
    if k == 4 {
        lemma_last_value_among_first(received, 4, n, ":authority");
    } else {
        lemma_last_value_among_first(received, 0, n, ":authority");
    }
    let method = encode_utf8(head.method);
    assert(methods_valid(received) <==> valid_method(method)) by {
        assert(received[0].value == method);
        assert(forall|i: int| 1 <= i < n ==> !(#[trigger] received[i]).is(":method"));
    }
    if valid_method(method) {
        assert forall|i: int| 0 <= i < method.len() implies #[trigger] method[i] < 0x80 by {
            assert(header_map::is_token_byte(method[i]));
        }
        lemma_ascii_bytes_are_ascii_text(head.method);
        is_ascii_chars_encode_utf8(head.method);
        is_ascii_chars_nat_bound(head.method);
        assert(ascii_text(method) =~= head.method);
    }
    lemma_content_behind(received, rest, k, rest.len() as int);
    header_map::lemma_header_map_arrives_as_sent(regular, head.headers);
}

/// A response arrives as it was sent: what a client makes of the header fields that a
/// server sends is the server's status and its header fields, if none of them has a
/// quotation mark in its name or a zero in its name or value.
pub proof fn lemma_response_arrives_as_sent(
    head: ResponseHead,
    fields: Seq<(Seq<u8>, Seq<u8>)>,
)
    requires
        head.goes_as(fields),
        header_map::clean(header_map::map_content(head.headers)),
        100 <= head.status <= 999,
    ensures
        ({
            let received = headers::as_received(fields);
            &&& header_map::status_of_first(received, received.len() as int) == head.status
            &&& header_map::header_content(received) == header_map::map_content(head.headers)
        }),
{
    let regular = choose|regular: Seq<(Seq<u8>, Seq<u8>)>| #[trigger]
        header_map::lists(regular, header_map::map_content(head.headers))
            && header_map::sendable(regular) && fields == head.fields(regular);
    header_map::lemma_sendable_is_plain(regular);
    let received = headers::as_received(fields);
    let rest = headers::as_received(regular);
    headers::lemma_colon_names();
    text::lemma_decimal_reads_back(head.status as nat, u16::MAX as nat);
    assert(received[0].is(":status"));
    assert forall|i: int| 0 <= i < rest.len() implies received[1 + i] == #[trigger] rest[i] by {
        assert(fields[1 + i] == regular[i]);
    }
    lemma_status_is_first(received, received.len() as int);
    lemma_content_behind(received, rest, 1, rest.len() as int);
    header_map::lemma_header_map_arrives_as_sent(regular, header_map::map_content(head.headers));
}

proof fn lemma_status_is_first(fields: Seq<FieldView>, n: int)
    requires
        1 <= n <= fields.len(),
        forall|i: int| 1 <= i < n ==> !(#[trigger] fields[i]).is_pseudo(),
    ensures
        header_map::status_of_first(fields, n) == header_map::status_of_first(fields, 1),
    decreases n,
{
    headers::lemma_colon_names();
    if n > 1 {
        lemma_status_is_first(fields, n - 1);
        assert(!fields[n - 1].is_pseudo());
    }
}

/// The URI of a request: scheme, authority and path put together, where there is an authority,
/// and otherwise the path alone. A scheme that is not stated is https, a path `/`.
pub proof fn lemma_uri_is_put_together(
    scheme: Seq<char>,
    authority: Seq<char>,
    path: Seq<char>,
    any: Option<Seq<char>>,
)
    ensures
        uri_text(Some(scheme), Some(authority), Some(path)) == scheme + "://"@ + authority + path,
        uri_text(None, Some(authority), Some(path)) == "https"@ + "://"@ + authority + path,
        uri_text(Some(scheme), Some(authority), None) == scheme + "://"@ + authority + "/"@,
        uri_text(any, None, Some(path)) == path,
        uri_text(any, None, None) == "/"@,
{
}

/// What a request states by a pseudo-header is the value of the last field with that name, and
/// nothing where there is none.
pub proof fn lemma_last_value_counts(fields: Seq<FieldView>, name: &str, i: int)
    ensures
        0 <= i < fields.len() && fields[i].name == name.spec_bytes() && (forall|j: int|
            i < j < fields.len() ==> (#[trigger] fields[j]).name != name.spec_bytes())
            ==> last_value(fields, fields.len() as int, name) == Some(fields[i].value),
        (forall|j: int| 0 <= j < fields.len() ==> (#[trigger] fields[j]).name != name.spec_bytes())
            ==> last_value(fields, fields.len() as int, name) is None,
{
    let n = fields.len() as int;
    if 0 <= i < n && (forall|j: int|
        i < j < n ==> (#[trigger] fields[j]).name != name.spec_bytes()) {
        assert forall|j: int| i + 1 <= j < n implies !(#[trigger] fields[j]).is(name) by {}
        lemma_last_value_among_first(fields, i + 1, n, name);
    }
    if forall|j: int| 0 <= j < n ==> (#[trigger] fields[j]).name != name.spec_bytes() {
        assert forall|j: int| 0 <= j < n implies !(#[trigger] fields[j]).is(name) by {}
        lemma_last_value_among_first(fields, 0, n, name);
    }
}

/// A request that comes in becomes what the application gets: its stream, its method, which is GET
/// where none is stated, and its header fields, unless its method or its URI is none.
pub proof fn lemma_requests_are_built(
    incoming: IncomingView,
    uri: Seq<char>,
    fault: Option<Seq<char>>,
)
    ensures
        ({
            let fields = incoming.headers;
            let stated = last_value(fields, fields.len() as int, ":method");
            let bad = exists|i: int|
                0 <= i < fields.len() && (#[trigger] fields[i]).name == ":method".spec_bytes()
                    && !valid_method(fields[i].value);
            &&& bad ==> (request_of(incoming, uri, fault) matches Err(ErrorView::Protocol(_)))
            &&& !bad && fault is Some ==> (request_of(incoming, uri, fault) matches Err(
                ErrorView::Protocol(_),
            ))
            &&& !bad && fault is None ==> {
                &&& request_of(incoming, uri, fault) matches Ok(r)
                &&& r.uri == uri
                &&& r.headers == header_map::header_content(fields)
                &&& r.body == (RecvStreamView {
                    stream_id: incoming.stream_id,
                    flow_control: share::RecvFlowView {
                        stream_id: incoming.stream_id,
                        unreleased: 0,
                    },
                })
                &&& stated is None ==> r.method == "GET"@
                &&& stated matches Some(m) ==> r.method == m.map_values(|b: u8| b as char)
            }
        }),
{
    let fields = incoming.headers;
    if exists|i: int|
        0 <= i < fields.len() && (#[trigger] fields[i]).name == ":method".spec_bytes()
            && !valid_method(fields[i].value) {
        let i = choose|i: int|
            0 <= i < fields.len() && (#[trigger] fields[i]).name == ":method".spec_bytes()
                && !valid_method(fields[i].value);
        assert(fields[i].is(":method"));
    } else {
        assert(methods_valid(fields)) by {
            assert forall|i: int|
                0 <= i < fields.len() && (#[trigger] fields[i]).is(":method") implies valid_method(
                fields[i].value,
            ) by {
                assert(fields[i].name == ":method".spec_bytes());
            }
        }
    }
}

/// The request that the application gets, and the handle that comes with it, are for the stream
/// that the request came on.
pub proof fn lemma_built_request_is_for_its_stream(
    r: Result<(Request, SendResponse), H2Error>,
    incoming: IncomingView,
    wanted: Result<RequestView, ErrorView>,
)
    requires
        is_request(r, incoming, wanted),
    ensures
        wanted matches Ok(v) ==> (r matches Ok((request, handle)) && request@ == v && handle@
            == incoming.stream_id),
        wanted matches Err(e) ==> (r matches Err(error) && error@ == e),
{
}

} // verus!
