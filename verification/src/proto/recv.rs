//! What a connection does with the frames that the peer sends.

use crate::codec::writer::{FrameWriter, WriterView};
use crate::error;
use crate::error::{ErrorView, H2Error, Reason};
use crate::frame;
use crate::frame::control::{GoAwayView, PingView, RstStreamView, WindowUpdateView};
use crate::frame::data::DataView;
use crate::frame::headers::HeadersView;
use crate::frame::{
    Data, Frame, FrameView, GoAway, Headers, Ping, RstStream, Settings, SettingsView, StreamId,
    WindowUpdate,
};
use crate::proto::connection;
use crate::proto::connection::{ConnState, ConnView, QuietStep, Step};
use crate::proto::events::{Event, EventView, IncomingStream, IncomingView};
use crate::proto::flow_control;
use crate::proto::header_map;
use crate::proto::headers;
use crate::proto::headers::{DecodedHeader, FieldView};
use crate::proto::settings::ConnSettings;
use crate::proto::streams::{Direction, RecvView, StoreView, Stream, StreamState};
use vstd::prelude::*;
use vstd::string::*;

verus! {

impl ConnView {
    /// Whether the counter of a stream's received bytes has room for a DATA frame.
    pub open spec fn has_room_for(self, d: DataView) -> bool {
        self.streams.has(d.stream_id) ==> self.streams.streams[d.stream_id].received_data_bytes
            + d.payload.len() <= u64::MAX
    }

    /// Whether a header map surely holds a header list, if one is made of it: on a known
    /// stream.
    pub open spec fn has_map_for(
        self,
        h: HeadersView,
        decoded: Result<Seq<FieldView>, ErrorView>,
    ) -> bool {
        decoded matches Ok(fields) ==> (self.streams.has(h.stream_id) ==> header_map::fits(fields))
    }

    /// Whether a frame can be taken: the counter has room for its data, a header map for its
    /// header list, and it lets frames have a payload.
    pub open spec fn admits(
        self,
        f: FrameView,
        decoded: Result<Seq<FieldView>, ErrorView>,
    ) -> bool {
        match f {
            FrameView::Data(d) => self.has_room_for(d),
            FrameView::Headers(h) => self.has_map_for(h, decoded),
            FrameView::Settings(s) => s.allows_payload(),
            _ => true,
        }
    }

    /// A DATA frame came in. The connection window is charged first, whatever the
    /// stream.
    #[verifier::opaque]
    pub open spec fn data_received(self, out: WriterView, d: DataView) -> Step {
        match self.conn_recv_flow.charged(d.flow_controlled_len()) {
            None => self.fail(out, ErrorView::connection(Reason::FlowControlError)),
            Some(flow) => {
                let c = ConnView {
                    conn_recv_flow: flow,
                    conn_recv_consumed: (self.conn_recv_consumed + d.flow_controlled_len()) as u32,
                    ..self
                };
                if self.streams.has(d.stream_id) {
                    c.stream_data_received(out, d)
                } else if self.idle_peer(d.stream_id) {
                    c.fail(out, ErrorView::connection(Reason::ProtocolError))
                } else {
                    c.done(
                        out.frame(connection::rst_bytes(d.stream_id, Reason::StreamClosed)),
                    )
                }
            },
        }
    }

    /// A DATA frame came in on a known stream: the stream window is charged, the
    /// announced length is held against what came, and the data is passed on.
    pub open spec fn stream_data_received(self, out: WriterView, d: DataView) -> Step {
        let id = d.stream_id;
        let s = self.streams.streams[id];
        if !s.state.spec_can_recv() {
            self.fail(out, ErrorView::stream(id, Reason::StreamClosed))
        } else {
            match s.recv_flow.charged(d.flow_controlled_len()) {
                None => self.fail(out, ErrorView::stream(id, Reason::FlowControlError)),
                Some(flow) => {
                    let s = Stream {
                        recv_flow: flow,
                        received_data_bytes: (s.received_data_bytes + d.payload.len()) as u64,
                        ..s
                    };
                    let c = self.with_stream(id, s);
                    let told = c.tell_if(
                        s.recv_open,
                        EventView::Data { stream_id: id, data: d.payload },
                    );
                    if s.expected_content_length matches Some(n) && s.received_data_bytes > n {
                        c.fail(out, ErrorView::stream(id, Reason::ProtocolError))
                    } else if !d.end_stream() {
                        told.done(out)
                    } else if s.expected_content_length matches Some(n) && s.received_data_bytes
                        != n {
                        told.fail(out, ErrorView::stream(id, Reason::ProtocolError))
                    } else {
                        told.remote_ended(id, s.state).done(out)
                    }
                },
            }
        }
    }

    /// The peer is done sending on a stream that was in `state`, which let it send.
    pub open spec fn remote_ended(self, id: u32, state: StreamState) -> ConnView {
        self.with_stream(
            id,
            Stream { state: state.remote_end()->0, ..self.streams.streams[id] },
        ).recv_closed(id)
    }
}

impl ConnState {
    /// The peer is done sending on the stream.
    fn end_remote(&mut self, stream_id: StreamId, s: Stream) -> (r: Result<(), H2Error>)
        requires
            old(self)@.base_wf(),
            old(self)@.streams.has(stream_id@),
            s == old(self)@.streams.streams[stream_id@],
            s.state.spec_can_recv(),
        ensures
            r is Ok,
            final(self)@ == old(self)@.remote_ended(stream_id@, s.state),
            final(self)@.base_wf(),
    {
        let mut s: Stream = s;
        s.state = s.state.recv_end_stream()?;
        self.put_stream(stream_id, s);
        // The reader sees the end
        self.close_recv_senders(&stream_id);
        Ok(())
    }

    /// A DATA frame came in.
    #[verifier::rlimit(40)]
    pub fn handle_data<W>(&mut self, data: Data, writer: &mut FrameWriter<W>) -> (r: Result<
        (),
        H2Error,
    >)
        requires
            old(self)@.wf(),
            old(self)@.has_room_for(data@),
        ensures
            final(writer).spec_transport() == old(writer).spec_transport(),
            (Step { conn: final(self)@, out: final(writer)@, result: error::outcome(r) }) == old(
                self,
            )@.data_received(old(writer)@, data@),
            final(self)@.wf(),
    {
        reveal(ConnView::data_received);
        let stream_id = data.stream_id();
        let charged: u128 = data.flow_controlled_len();
        let payload_len: u64 = data.payload().len() as u64;
        let end_stream = data.is_end_stream();

        // Connection-level flow control
        if self.conn_recv_flow.charge(charged).is_err() {
            return Err(H2Error::connection(Reason::FlowControlError));
        }
        self.conn_recv_consumed = self.conn_recv_consumed + charged as u32;

        if let Some(s) = self.streams.get(&stream_id) {
            let mut s: Stream = *s;
            // Check stream state allows receiving
            if !s.state.can_recv() {
                return Err(H2Error::stream(stream_id.value(), Reason::StreamClosed));
            }
            // Stream-level flow control
            if s.recv_flow.charge(charged).is_err() {
                return Err(H2Error::stream(stream_id.value(), Reason::FlowControlError));
            }
            // Track received bytes for content-length validation
            s.received_data_bytes = s.received_data_bytes + payload_len;
            self.put_stream(stream_id, s);
            if let Some(expected) = s.expected_content_length {
                if s.received_data_bytes > expected {
                    return Err(H2Error::stream(stream_id.value(), Reason::ProtocolError));
                }
            }
            if s.recv_open {
                self.emit(Event::Data { stream_id, data: data.into_payload() });
            }
            if end_stream {
                // Validate content-length matches at END_STREAM
                if let Some(expected) = s.expected_content_length {
                    if s.received_data_bytes != expected {
                        return Err(H2Error::stream(stream_id.value(), Reason::ProtocolError));
                    }
                }
                return self.end_remote(stream_id, s);
            }
        } else {
            // DATA on an idle stream is a connection error
            if self.is_idle_peer_stream(&stream_id) {
                return Err(H2Error::connection(Reason::ProtocolError));
            }
            // Stream was closed and forgotten
            let rst = RstStream::new(stream_id, Reason::StreamClosed);
            writer.write_frame(&Frame::RstStream(rst));
        }
        Ok(())
    }
}

/// What the header decoder made of a header block, as plain values.
pub open spec fn decoded_view(d: Result<Vec<DecodedHeader>, H2Error>) -> Result<
    Seq<FieldView>,
    ErrorView,
> {
    match d {
        Ok(f) => Ok(headers::views(f@)),
        Err(e) => Err(e@),
    }
}

impl ConnView {
    /// HEADERS came in. A header list that breaks the rules fails the connection or
    /// the stream before anything else is looked at. Trailers have no pseudo-headers; a
    /// request, which opens a stream on a server, must have those that are required.
    #[verifier::opaque]
    pub open spec fn headers_received(
        self,
        out: WriterView,
        h: HeadersView,
        decoded: Result<Seq<FieldView>, ErrorView>,
    ) -> Step {
        match decoded {
            Err(e) => self.fail(out, e),
            Ok(fields) => {
                let fault = headers::pseudo_fault(fields, !self.is_client);
                let trailers = headers::no_pseudo(fields) && (self.is_client || self.streams.has(
                    h.stream_id,
                ));
                if !trailers && fault is Some {
                    self.fail(out, ErrorView::connection_msg(Reason::ProtocolError, fault->0))
                } else if headers::any_prohibited(fields) {
                    self.fail(out, ErrorView::stream(h.stream_id, Reason::ProtocolError))
                } else if self.is_client {
                    self.client_headers(h.stream_id, h.end_stream, fields).with(out)
                } else if self.streams.has(h.stream_id) {
                    self.server_trailers(h.stream_id, h.end_stream, fields).with(out)
                } else {
                    self.server_request(out, h.stream_id, h.end_stream, fields)
                }
            },
        }
    }

    /// Response headers or trailers came in on a client. On a stream that is not known
    /// they are ignored.
    pub open spec fn client_headers(
        self,
        id: u32,
        end_stream: bool,
        fields: Seq<FieldView>,
    ) -> QuietStep {
        let s = self.streams.streams[id];
        let content = header_map::header_content(fields);
        if !self.streams.has(id) {
            self.settled()
        } else if !s.state.spec_can_recv() {
            self.broken(ErrorView::stream(id, Reason::StreamClosed))
        } else if headers::no_pseudo(fields) && !end_stream {
            self.broken(ErrorView::stream(id, Reason::ProtocolError))
        } else {
            let c = if headers::no_pseudo(fields) {
                self.tell_if(s.recv_open, EventView::Trailers { stream_id: id, trailers: content })
            } else {
                self.with_stream(
                    id,
                    Stream {
                        expected_content_length: headers::announced_length(fields),
                        ..s
                    },
                ).tell_if(
                    s.headers_open,
                    EventView::Response {
                        stream_id: id,
                        status: header_map::status_of_first(fields, fields.len() as int),
                        headers: content,
                    },
                )
            };
            if end_stream {
                c.remote_ended(id, s.state).settled()
            } else {
                c.settled()
            }
        }
    }

    /// Trailers came in on a server.
    pub open spec fn server_trailers(
        self,
        id: u32,
        end_stream: bool,
        fields: Seq<FieldView>,
    ) -> QuietStep {
        let s = self.streams.streams[id];
        if !s.state.spec_can_recv() {
            self.broken(ErrorView::stream(id, Reason::StreamClosed))
        } else if !end_stream {
            self.broken(ErrorView::stream(id, Reason::ProtocolError))
        } else {
            self.tell_if(
                s.recv_open,
                EventView::Trailers {
                    stream_id: id,
                    trailers: header_map::header_content(fields),
                },
            ).remote_ended(id, s.state).settled()
        }
    }

    /// A request came in on a server. Its stream must be odd and above all before it;
    /// it is refused while the connection goes away or enough streams are open.
    pub open spec fn server_request(
        self,
        out: WriterView,
        id: u32,
        end_stream: bool,
        fields: Seq<FieldView>,
    ) -> Step {
        if id % 2 == 0 {
            self.fail(out, ErrorView::connection(Reason::ProtocolError))
        } else if id <= self.last_peer_stream_id {
            self.fail(
                out,
                ErrorView::connection_msg(
                    Reason::ProtocolError,
                    "HEADERS on closed/non-monotonic stream ID"@,
                ),
            )
        } else if self.going_away || !self.streams.can_accept() {
            self.done(out.frame(connection::rst_bytes(id, Reason::RefusedStream)))
        } else {
            let c = self.request_accepted(id, end_stream, fields);
            if end_stream {
                c.recv_closed(id).done(out)
            } else {
                c.done(out)
            }
        }
    }

    /// A request opens a stream.
    pub open spec fn request_accepted(
        self,
        id: u32,
        end_stream: bool,
        fields: Seq<FieldView>,
    ) -> ConnView {
        let fresh = Stream::fresh(
            flow_control::signed(self.settings.remote.initial_window_size),
            flow_control::signed(self.settings.local.initial_window_size),
            false,
        );
        let s = Stream {
            state: if end_stream {
                StreamState::HalfClosedRemote
            } else {
                StreamState::Open
            },
            expected_content_length: headers::announced_length(fields),
            ..fresh
        };
        ConnView {
            last_peer_stream_id: id,
            streams: self.streams.inserted(id, s),
            ..self
        }.tell_if(
            self.has_incoming,
            EventView::Incoming(
                IncomingView {
                    stream_id: id,
                    headers: fields,
                    recv: RecvView { stream_id: id, with_headers: false },
                },
            ),
        )
    }
}

impl ConnState {
    /// Response headers or trailers came in on a client.
    fn handle_client_headers(
        &mut self,
        stream_id: StreamId,
        end_stream: bool,
        decoded: &Vec<DecodedHeader>,
    ) -> (r: Result<(), H2Error>)
        requires
            old(self)@.wf(),
            old(self)@.streams.has(stream_id@) ==> header_map::fits(headers::views(decoded@)),
        ensures
            (QuietStep { conn: final(self)@, result: error::outcome(r) }) == old(self)@.client_headers(
                stream_id@, end_stream, headers::views(decoded@),
            ),
            final(self)@.wf(),
    {
        if let Some(s) = self.streams.get(&stream_id) {
            let mut s: Stream = *s;
            // Check stream state allows receiving
            if !s.state.can_recv() {
                return Err(H2Error::stream(stream_id.value(), Reason::StreamClosed));
            }
            let trailers = headers::has_no_pseudo_headers(decoded.as_slice());
            if trailers && !end_stream {
                // Trailers MUST have END_STREAM set
                return Err(H2Error::stream(stream_id.value(), Reason::ProtocolError));
            }
            let map = header_map::headers_to_header_map(decoded.as_slice());
            if trailers {
                if s.recv_open {
                    self.emit(Event::Trailers { stream_id, trailers: map });
                }
            } else {
                let status: u16 = header_map::response_status(decoded.as_slice());
                s.expected_content_length = headers::parse_content_length(decoded.as_slice());
                self.put_stream(stream_id, s);
                if s.headers_open {
                    self.emit(Event::Response { stream_id, status, headers: map });
                }
            }
            if end_stream {
                return self.end_remote(stream_id, s);
            }
        }
        Ok(())
    }

    /// Trailers came in on a server.
    fn handle_server_trailers(
        &mut self,
        stream_id: StreamId,
        end_stream: bool,
        decoded: &Vec<DecodedHeader>,
    ) -> (r: Result<(), H2Error>)
        requires
            old(self)@.wf(),
            old(self)@.streams.has(stream_id@),
            header_map::fits(headers::views(decoded@)),
        ensures
            (QuietStep { conn: final(self)@, result: error::outcome(r) }) == old(self)@.server_trailers(
                stream_id@, end_stream, headers::views(decoded@),
            ),
            final(self)@.wf(),
    {
        let s: Stream = *self.streams.get(&stream_id).unwrap();
        // Check stream state allows receiving
        if !s.state.can_recv() {
            return Err(H2Error::stream(stream_id.value(), Reason::StreamClosed));
        }
        // Trailers MUST have END_STREAM set
        if !end_stream {
            return Err(H2Error::stream(stream_id.value(), Reason::ProtocolError));
        }
        if s.recv_open {
            let map = header_map::headers_to_header_map(decoded.as_slice());
            self.emit(Event::Trailers { stream_id, trailers: map });
        }
        self.end_remote(stream_id, s)
    }

    /// A request came in on a server.
    fn handle_server_request<W>(
        &mut self,
        stream_id: StreamId,
        end_stream: bool,
        decoded: Vec<DecodedHeader>,
        writer: &mut FrameWriter<W>,
    ) -> (r: Result<(), H2Error>)
        requires
            old(self)@.wf(),
            !old(self)@.streams.has(stream_id@),
        ensures
            final(writer).spec_transport() == old(writer).spec_transport(),
            (Step { conn: final(self)@, out: final(writer)@, result: error::outcome(r) }) == old(
                self,
            )@.server_request(old(writer)@, stream_id@, end_stream, headers::views(decoded@)),
            final(self)@.wf(),
    {
        // Client-initiated streams must be odd
        if stream_id.value() % 2 == 0 {
            return Err(H2Error::connection(Reason::ProtocolError));
        }
        // Stream IDs must be numerically greater than all previously opened streams
        if stream_id.value() <= self.last_peer_stream_id.value() {
            return Err(
                H2Error::connection_msg(
                    Reason::ProtocolError,
                    "HEADERS on closed/non-monotonic stream ID",
                ),
            );
        }
        // Refuse a new stream when going away or when there are enough
        if self.going_away || !self.streams.can_accept_stream() {
            let rst = RstStream::new(stream_id, Reason::RefusedStream);
            writer.write_frame(&Frame::RstStream(rst));
            return Ok(());
        }
        self.last_peer_stream_id = stream_id;
        let send_window: i32 = flow_control::to_signed(self.settings.remote().initial_window_size);
        let recv_window: i32 = flow_control::to_signed(self.settings.local().initial_window_size);
        let recv = self.streams.insert(stream_id, send_window, recv_window);
        let mut s: Stream = *self.streams.get(&stream_id).unwrap();
        s.state = s.state.recv_headers(end_stream)?;
        s.expected_content_length = headers::parse_content_length(decoded.as_slice());
        self.put_stream(stream_id, s);
        let ghost fields = headers::views(decoded@);
        proof {
            let store = old(self)@.streams;
            let fresh = Stream::fresh(send_window, recv_window, false);
            assert(store.inserted(stream_id@, fresh).with(stream_id@, s) =~= store.inserted(
                stream_id@,
                s,
            ));
        }
        if self.has_incoming {
            self.emit(Event::Incoming(IncomingStream { stream_id, headers: decoded, recv }));
        }
        assert(self@ =~= old(self)@.request_accepted(stream_id@, end_stream, fields));
        if end_stream {
            self.close_recv_senders(&stream_id);
        }
        Ok(())
    }

    /// HEADERS came in. `decoded` is what the header decoder made of the header block.
    pub fn handle_headers<W>(
        &mut self,
        headers: Headers,
        decoded: Result<Vec<DecodedHeader>, H2Error>,
        writer: &mut FrameWriter<W>,
    ) -> (r: Result<(), H2Error>)
        requires
            old(self)@.wf(),
            old(self)@.has_map_for(headers@, decoded_view(decoded)),
        ensures
            final(writer).spec_transport() == old(writer).spec_transport(),
            (Step { conn: final(self)@, out: final(writer)@, result: error::outcome(r) }) == old(
                self,
            )@.headers_received(old(writer)@, headers@, decoded_view(decoded)),
            final(self)@.wf(),
    {
        reveal(ConnView::headers_received);
        let stream_id = headers.stream_id();
        let end_stream = headers.is_end_stream();
        let decoded = decoded?;

        // Validate pseudo-header ordering and requirements (skip for trailers)
        let opens = !self.is_client && !self.streams.contains(&stream_id);
        if opens || !headers::has_no_pseudo_headers(decoded.as_slice()) {
            headers::validate_pseudo_headers(decoded.as_slice(), !self.is_client)?;
        }
        // Validate regular headers: no uppercase, no connection-specific headers
        headers::validate_regular_headers(decoded.as_slice(), stream_id)?;

        if self.is_client {
            self.handle_client_headers(stream_id, end_stream, &decoded)
        } else if self.streams.contains(&stream_id) {
            self.handle_server_trailers(stream_id, end_stream, &decoded)
        } else {
            self.handle_server_request(stream_id, end_stream, decoded, writer)
        }
    }
}

impl ConnView {
    /// RST_STREAM came in at the time `now`.
    #[verifier::opaque]
    pub open spec fn reset_received(self, f: RstStreamView, now: u128) -> QuietStep {
        let id = f.stream_id;
        if !self.streams.has(id) {
            if self.idle_peer(id) {
                self.broken(ErrorView::connection(Reason::ProtocolError))
            } else {
                self.settled()
            }
        } else {
            let c = self.stream_reset(id, f.reason);
            let c = ConnView { streams: c.streams.reset_recorded(now), ..c };
            if c.streams.too_many_resets() {
                c.broken(ErrorView::connection(Reason::EnhanceYourCalm))
            } else {
                c.settled()
            }
        }
    }

    /// The peer reset a stream: the readers of its data and trailers, and whoever waits
    /// for the reset, are told.
    pub open spec fn stream_reset(self, id: u32, reason: Reason) -> ConnView {
        let s = self.streams.streams[id];
        let error = ErrorView::stream_remote(id, reason);
        self.with_stream(
            id,
            Stream { state: StreamState::Closed, reset_open: false, was_reset: true, ..s },
        ).tell_if(s.recv_open, EventView::DataError { stream_id: id, error }).tell_if(
            s.recv_open,
            EventView::TrailersError { stream_id: id, error },
        ).tell_if(s.reset_open, EventView::Reset { stream_id: id, reason }).recv_closed(id)
    }

    /// SETTINGS came in.
    #[verifier::opaque]
    pub open spec fn settings_received(self, out: WriterView, f: SettingsView) -> Step {
        if f.ack {
            let (settings, next) = self.settings.acked();
            ConnView { settings, ..self }.done(
                match next {
                    Some(n) => out.frame(n.bytes()),
                    None => out,
                },
            )
        } else {
            let c = ConnView {
                settings: ConnSettings { remote: self.settings.remote.updated(f), ..self.settings },
                streams: match f.max_concurrent_streams {
                    Some(max) if self.is_client => StoreView {
                        max_concurrent: max,
                        ..self.streams
                    },
                    _ => self.streams,
                },
                ..self
            };
            let (streams, ok) = match f.initial_window_size {
                Some(size) => c.streams.resized(flow_control::signed(size), Direction::Send),
                None => (c.streams, true),
            };
            let c = ConnView { streams, ..c };
            if ok {
                c.done(out.frame(SettingsView::acknowledgement().bytes()))
            } else {
                c.fail(out, ErrorView::connection(Reason::FlowControlError))
            }
        }
    }

    /// PING came in: it is answered with the same bytes.
    #[verifier::opaque]
    pub open spec fn ping_received(self, out: WriterView, f: PingView) -> Step {
        if f.ack {
            ConnView {
                ping_pong: if self.ping_pong == Some(f.opaque_data) {
                    None
                } else {
                    self.ping_pong
                },
                ..self
            }.done(out)
        } else {
            self.done(out.frame((PingView { ack: true, opaque_data: f.opaque_data }).bytes()))
        }
    }

    /// Of the first `n` streams, those that the peer will not process are closed, and
    /// the readers of their data, and whoever waits for a reset, are told.
    pub open spec fn streams_abandoned(self, n: int, f: GoAwayView) -> ConnView
        decreases n,
    {
        if n <= 0 {
            self
        } else {
            let c = self.streams_abandoned(n - 1, f);
            let id = self.streams.ids[n - 1];
            if id > f.last_stream_id {
                c.stream_abandoned(id, f)
            } else {
                c
            }
        }
    }

    /// The peer will not process the stream.
    pub open spec fn stream_abandoned(self, id: u32, f: GoAwayView) -> ConnView {
        let s = self.streams.streams[id];
        self.with_stream(
            id,
            Stream { state: StreamState::Closed, reset_open: false, was_reset: true, ..s },
        ).tell_if(
            s.recv_open,
            EventView::DataError {
                stream_id: id,
                error: ErrorView::GoAway {
                    last_stream_id: f.last_stream_id,
                    reason: f.error_code,
                    debug_data: f.debug_data,
                },
            },
        ).tell_if(
            s.reset_open,
            EventView::Reset { stream_id: id, reason: f.error_code },
        ).recv_closed(id)
    }

    /// GOAWAY came in.
    #[verifier::opaque]
    pub open spec fn goaway_received(self, f: GoAwayView) -> ConnView {
        ConnView { going_away: true, ..self }.streams_abandoned(
            self.streams.ids.len() as int,
            f,
        ).waiters_drained(Reason::RefusedStream)
    }

    /// WINDOW_UPDATE came in.
    #[verifier::opaque]
    pub open spec fn window_update_received(self, f: WindowUpdateView) -> QuietStep {
        let id = f.stream_id;
        let s = self.streams.streams[id];
        if id == 0 {
            match self.conn_send_flow.grown(f.size_increment) {
                Some(flow) => ConnView { conn_send_flow: flow, ..self }.settled(),
                None => self.broken(ErrorView::connection(Reason::FlowControlError)),
            }
        } else if self.streams.has(id) {
            match s.send_flow.grown(f.size_increment) {
                Some(flow) => self.with_stream(id, Stream { send_flow: flow, ..s }).settled(),
                None => self.broken(ErrorView::stream(id, Reason::FlowControlError)),
            }
        } else if self.idle_peer(id) {
            self.broken(ErrorView::connection(Reason::ProtocolError))
        } else {
            self.settled()
        }
    }

    /// What a frame does by itself.
    #[verifier::opaque]
    pub open spec fn frame_processed(
        self,
        out: WriterView,
        f: FrameView,
        decoded: Result<Seq<FieldView>, ErrorView>,
        now: u128,
    ) -> Step {
        match f {
            FrameView::Data(d) => self.data_received(out, d),
            FrameView::Headers(h) => self.headers_received(out, h, decoded),
            FrameView::Priority(_) => self.done(out),
            FrameView::RstStream(r) => self.reset_received(r, now).with(out),
            FrameView::Settings(s) => self.settings_received(out, s),
            FrameView::Ping(p) => self.ping_received(out, p),
            FrameView::GoAway(g) => self.goaway_received(g).done(out),
            FrameView::WindowUpdate(w) => self.window_update_received(w).with(out),
            FrameView::Continuation(_) => self.fail(
                out,
                ErrorView::connection(Reason::ProtocolError),
            ),
        }
    }

    /// A frame came in. A failure of one stream resets that stream and nothing else;
    /// any other failure ends the connection, and says why.
    #[verifier::opaque]
    pub open spec fn frame_received(
        self,
        out: WriterView,
        f: FrameView,
        decoded: Result<Seq<FieldView>, ErrorView>,
        now: u128,
    ) -> Step {
        let step = self.frame_processed(out, f, decoded, now);
        match step.result {
            Ok(_) => step,
            Err(ErrorView::StreamError { stream_id, reason, .. }) => {
                let id = (stream_id % 0x8000_0000) as u32;
                step.conn.stream_closed(id).done(
                    step.out.frame(connection::rst_bytes(id, reason)),
                )
            },
            Err(e) => Step { result: Err(with_reason(e)), ..step },
        }
    }
}

/// The error that ends the connection where `e` came up while a frame was processed:
/// one that has no reason code is given one.
pub open spec fn with_reason(e: ErrorView) -> ErrorView {
    match e {
        ErrorView::HpackDecode(_) | ErrorView::Hpack(_) => ErrorView::connection(
            Reason::CompressionError,
        ),
        ErrorView::Protocol(_) | ErrorView::InvalidFrame(_) | ErrorView::Frame(
            _,
        ) => ErrorView::connection(Reason::ProtocolError),
        _ => e,
    }
}

impl ConnState {
    /// RST_STREAM came in at the time `now`, in nanoseconds.
    #[verifier::rlimit(40)]
    pub fn handle_rst_stream(&mut self, rst: RstStream, now: u128) -> (r: Result<(), H2Error>)
        requires
            old(self)@.wf(),
        ensures
            (QuietStep { conn: final(self)@, result: error::outcome(r) }) == old(
                self,
            )@.reset_received(rst@, now),
            final(self)@.wf(),
    {
        reveal(ConnView::reset_received);
        let stream_id = rst.stream_id();
        let reason = rst.reason();
        let known = self.streams.get(&stream_id);
        if known.is_none() {
            // RST_STREAM on idle stream is a connection error
            if self.is_idle_peer_stream(&stream_id) {
                return Err(H2Error::connection(Reason::ProtocolError));
            }
            // Otherwise stream was already closed and forgotten
            return Ok(());
        }
        let s: Stream = *known.unwrap();
        let mut closed: Stream = s;
        closed.state = s.state.reset();
        closed.reset_open = false;
        closed.was_reset = true;
        self.put_stream(stream_id, closed);
        if s.recv_open {
            self.emit(
                Event::DataError {
                    stream_id,
                    error: H2Error::stream_remote(stream_id.value(), reason),
                },
            );
            self.emit(
                Event::TrailersError {
                    stream_id,
                    error: H2Error::stream_remote(stream_id.value(), reason),
                },
            );
        }
        if s.reset_open {
            self.emit(Event::Reset { stream_id, reason });
        }
        // Readers see the end instead of hanging
        self.close_recv_senders(&stream_id);

        // If the peer is sending resets faster than allowed, the connection ends
        if self.streams.record_reset(now) {
            return Err(H2Error::connection(Reason::EnhanceYourCalm));
        }
        Ok(())
    }

    /// SETTINGS came in.
    pub fn handle_settings<W>(&mut self, settings: Settings, writer: &mut FrameWriter<W>) -> (r:
        Result<(), H2Error>)
        requires
            old(self)@.wf(),
            settings@.allows_payload(),
        ensures
            final(writer).spec_transport() == old(writer).spec_transport(),
            (Step { conn: final(self)@, out: final(writer)@, result: error::outcome(r) }) == old(
                self,
            )@.settings_received(old(writer)@, settings@),
            final(self)@.wf(),
    {
        reveal(ConnView::settings_received);
        if settings.is_ack() {
            // There may be a queued SETTINGS frame to send
            if let Some(queued) = self.settings.recv_ack() {
                writer.write_frame(&Frame::Settings(queued));
            }
            return Ok(());
        }
        self.settings.apply_remote(&settings);

        // Client: the peer's limit constrains how many streams we can open.
        // Server: the local limit is set at the start; the peer's limit doesn't apply
        // to incoming streams.
        if self.is_client {
            if let Some(max) = settings.max_concurrent_streams() {
                self.streams.set_max_concurrent_streams(max);
            }
        }

        // When INITIAL_WINDOW_SIZE changes, all existing streams' send windows move by
        // the difference. A window that leaves its range is a connection error.
        if let Some(size) = settings.initial_window_size() {
            if !self.streams.resize_windows(flow_control::to_signed(size), Direction::Send) {
                return Err(H2Error::connection(Reason::FlowControlError));
            }
        }
        let ack = Settings::ack();
        writer.write_frame(&Frame::Settings(ack));
        Ok(())
    }

    /// PING came in.
    pub fn handle_ping<W>(&mut self, ping: Ping, writer: &mut FrameWriter<W>)
        requires
            old(self)@.wf(),
        ensures
            final(writer).spec_transport() == old(writer).spec_transport(),
            (Step { conn: final(self)@, out: final(writer)@, result: Ok(()) }) == old(
                self,
            )@.ping_received(old(writer)@, ping@),
            final(self)@.wf(),
    {
        reveal(ConnView::ping_received);
        if ping.is_ack() {
            self.ping_pong.recv_pong(ping.opaque_data());
            return;
        }
        let pong = Ping::pong(*ping.opaque_data());
        writer.write_frame(&Frame::Ping(pong));
    }

    /// GOAWAY came in.
    pub fn handle_goaway(&mut self, goaway: GoAway)
        requires
            old(self)@.wf(),
        ensures
            final(self)@ == old(self)@.goaway_received(goaway@),
            final(self)@.wf(),
    {
        reveal(ConnView::goaway_received);
        let last_stream_id = goaway.last_stream_id();
        let error_code = goaway.error_code();
        self.going_away = true;
        let ids: Vec<StreamId> = self.streams.iter_ids();
        let ghost start = ConnView { going_away: true, ..old(self)@ };
        let ghost all = start.streams.ids;
        assert(self@ =~= start);
        assert(forall|j: int| 0 <= j < ids@.len() ==> (#[trigger] ids@[j])@ == all[j]) by {
            assert(ids@.map_values(|id: StreamId| id@) =~= all);
        }
        let mut i: usize = 0;
        while i < ids.len()
            invariant
                start.wf(),
                self@.wf(),
                all == start.streams.ids,
                self@.streams.ids == all,
                ids@.len() == all.len(),
                forall|j: int| 0 <= j < ids@.len() ==> (#[trigger] ids@[j])@ == all[j],
                i <= ids@.len(),
                last_stream_id@ == goaway@.last_stream_id,
                error_code == goaway@.error_code,
                self@ == start.streams_abandoned(i as int, goaway@),
            decreases ids@.len() - i,
        {
            let id: StreamId = ids[i];
            if id.value() > last_stream_id.value() {
                assert(all.contains(id@)) by {
                    assert(all[i as int] == id@);
                }
                assert(self@.streams.has(id@));
                let s: Stream = *self.streams.get(&id).unwrap();
                let mut closed: Stream = s;
                closed.state = s.state.reset();
                closed.reset_open = false;
                closed.was_reset = true;
                self.put_stream(id, closed);
                if s.recv_open {
                    self.emit(
                        Event::DataError {
                            stream_id: id,
                            error: H2Error::go_away(
                                last_stream_id.value(),
                                error_code,
                                goaway.debug_data().clone(),
                            ),
                        },
                    );
                }
                if s.reset_open {
                    self.emit(Event::Reset { stream_id: id, reason: error_code });
                }
                self.close_recv_senders(&id);
            }
            i = i + 1;
        }
        // No new streams will be accepted
        self.drain_ready_waiters(Reason::RefusedStream);
    }

    /// WINDOW_UPDATE came in.
    pub fn handle_window_update(&mut self, wu: WindowUpdate) -> (r: Result<(), H2Error>)
        requires
            old(self)@.wf(),
        ensures
            (QuietStep { conn: final(self)@, result: error::outcome(r) }) == old(
                self,
            )@.window_update_received(wu@),
            final(self)@.wf(),
    {
        reveal(ConnView::window_update_received);
        let stream_id = wu.stream_id();
        let increment: u32 = wu.size_increment();
        if stream_id.is_zero() {
            if self.conn_send_flow.apply_window_update(increment).is_err() {
                return Err(H2Error::connection(Reason::FlowControlError));
            }
        } else if let Some(s) = self.streams.get(&stream_id) {
            let mut s: Stream = *s;
            if s.send_flow.apply_window_update(increment).is_err() {
                return Err(H2Error::stream(stream_id.value(), Reason::FlowControlError));
            }
            self.put_stream(stream_id, s);
        } else if self.is_idle_peer_stream(&stream_id) {
            // WINDOW_UPDATE on idle stream is a connection error
            return Err(H2Error::connection(Reason::ProtocolError));
        }
        // Otherwise stream was closed and forgotten
        Ok(())
    }

    /// What a frame does by itself.
    fn process_frame<W>(
        &mut self,
        frame: Frame,
        decoded: Result<Vec<DecodedHeader>, H2Error>,
        now: u128,
        writer: &mut FrameWriter<W>,
    ) -> (r: Result<(), H2Error>)
        requires
            old(self)@.wf(),
            old(self)@.admits(frame@, decoded_view(decoded)),
        ensures
            final(writer).spec_transport() == old(writer).spec_transport(),
            (Step { conn: final(self)@, out: final(writer)@, result: error::outcome(r) }) == old(
                self,
            )@.frame_processed(old(writer)@, frame@, decoded_view(decoded), now),
            final(self)@.wf(),
    {
        reveal(ConnView::frame_processed);
        match frame {
            Frame::Data(data) => self.handle_data(data, writer),
            Frame::Headers(headers) => self.handle_headers(headers, decoded, writer),
            // Priority is advisory
            Frame::Priority(_) => Ok(()),
            Frame::RstStream(rst) => self.handle_rst_stream(rst, now),
            Frame::Settings(settings) => self.handle_settings(settings, writer),
            Frame::Ping(ping) => {
                self.handle_ping(ping, writer);
                Ok(())
            },
            Frame::GoAway(goaway) => {
                self.handle_goaway(goaway);
                Ok(())
            },
            Frame::WindowUpdate(wu) => self.handle_window_update(wu),
            Frame::Continuation(_) => Err(H2Error::connection(Reason::ProtocolError)),
        }
    }

    /// Handle an incoming frame. `decoded` is what the header decoder made of the header
    /// block, where the frame is HEADERS; `now` is the time, in nanoseconds.
    ///
    /// Stream-level errors are caught and result in RST_STREAM; only
    /// connection-level errors propagate up to kill the connection.
    pub fn handle_frame<W>(
        &mut self,
        frame: Frame,
        decoded: Result<Vec<DecodedHeader>, H2Error>,
        now: u128,
        writer: &mut FrameWriter<W>,
    ) -> (r: Result<(), H2Error>)
        requires
            old(self)@.wf(),
            old(self)@.admits(frame@, decoded_view(decoded)),
        ensures
            final(writer).spec_transport() == old(writer).spec_transport(),
            (Step { conn: final(self)@, out: final(writer)@, result: error::outcome(r) }) == old(
                self,
            )@.frame_received(old(writer)@, frame@, decoded_view(decoded), now),
            final(self)@.wf(),
    {
        reveal(ConnView::frame_received);
        let result = self.process_frame(frame, decoded, now, writer);
        match result {
            Ok(()) => Ok(()),
            Err(H2Error::StreamError { stream_id, reason, .. }) => {
                self.send_rst_stream(StreamId::new(stream_id), reason, writer);
                Ok(())
            },
            // Library errors become connection errors with proper reason codes, so that
            // the peer is told with GOAWAY
            Err(H2Error::HpackDecode(_)) | Err(H2Error::Hpack(_)) => Err(
                H2Error::connection(Reason::CompressionError),
            ),
            Err(H2Error::Protocol(_)) | Err(H2Error::InvalidFrame(_)) | Err(H2Error::Frame(_)) => {
                Err(H2Error::connection(Reason::ProtocolError))
            },
            Err(e) => Err(e),
        }
    }
}

} // verus!
