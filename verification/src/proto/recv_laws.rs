//! What the frames that come in do, seen from outside: what the application is told, what is
//! written back, and what of the connection changes.

use crate::codec::writer::WriterView;
use crate::error::{ErrorView, Reason};
use crate::frame::control::{GoAwayView, PingView, RstStreamView, WindowUpdateView};
use crate::frame::data::DataView;
use crate::frame::headers::HeadersView;
use crate::frame::wire;
use crate::frame::{FrameView, SettingsView, MAX_31_BIT};
use crate::proto::connection::{ConnView, Step};
use crate::proto::events::{EventView, IncomingView, Ticket};
use crate::proto::flow_control;
use crate::proto::flow_control::FlowControl;
use crate::proto::header_map;
use crate::proto::headers;
use crate::proto::headers::FieldView;
use crate::proto::laws;
use crate::proto::settings::{ConnSettings, SettingValues, SyncState};
use crate::proto::streams::{Direction, RecvView, StoreView, Stream, StreamState};
use vstd::prelude::*;

verus! {

/// One thing that is told, if somebody listens.
pub open spec fn if_open(open: bool, e: EventView) -> Seq<EventView> {
    if open {
        seq![e]
    } else {
        Seq::empty()
    }
}

/// Whether exactly `more` was told between two moments.
pub open spec fn told(before: ConnView, after: ConnView, more: Seq<EventView>) -> bool {
    after.events == before.events + more
}

/// Whether nothing but one stream, and what was told, differs.
pub open spec fn only_stream(before: ConnView, after: ConnView, id: u32) -> bool {
    after == ConnView {
        events: after.events,
        streams: StoreView {
            streams: before.streams.streams.insert(id, after.streams.streams[id]),
            ..before.streams
        },
        ..before
    }
}

/// Whether a stream has never been opened and only the peer could open it.
pub open spec fn never_opened(c: ConnView, id: u32) -> bool {
    id > c.last_peer_stream_id && (c.is_client ==> id % 2 == 0)
}

/// Whether the peer's side of a stream is open.
pub open spec fn peer_may_send(s: Stream) -> bool {
    s.state == StreamState::Open || s.state == StreamState::HalfClosedLocal
}

/// Whether the peer's side of a stream was ended, and nothing else of its state changed.
pub open spec fn peer_side_ended(before: Stream, after: Stream) -> bool {
    &&& before.state == StreamState::Open ==> after.state == StreamState::HalfClosedRemote
    &&& before.state == StreamState::HalfClosedLocal ==> after.state == StreamState::Closed
    &&& !after.recv_open
    &&& !after.headers_open
}

/// The error of one stream.
pub open spec fn stream_error(id: u32, reason: Reason) -> Result<(), ErrorView> {
    Err(ErrorView::StreamError { stream_id: id, reason, remote: false })
}

/// The error of the connection.
pub open spec fn connection_error(reason: Reason) -> Result<(), ErrorView> {
    Err(ErrorView::ConnectionError { reason, message: None })
}

/// Whether more bytes came than a window holds.
pub open spec fn overruns(n: nat, flow: FlowControl) -> bool {
    n > 0 && n > flow.window
}

/// Data on a known stream, within both windows and within the announced length, reaches the
/// application as it came, if it still listens, and is charged, with its padding, to both
/// windows. END_STREAM, where all that was announced has come, ends the peer's side, which
/// the application is told last.
pub proof fn lemma_data_reaches_the_application(c: ConnView, out: WriterView, d: DataView)
    requires
        c.has_room_for(d),
        laws::recv_credit(c) <= MAX_31_BIT,
        c.streams.has(d.stream_id),
        peer_may_send(c.streams.streams[d.stream_id]),
        !overruns(d.payload.len() + d.padding as nat, c.conn_recv_flow),
        !overruns(d.payload.len() + d.padding as nat, c.streams.streams[d.stream_id].recv_flow),
        c.streams.streams[d.stream_id].expected_content_length matches Some(n)
            ==> c.streams.streams[d.stream_id].received_data_bytes + d.payload.len() <= n,
        d.flags % 2 == 1 ==> (c.streams.streams[d.stream_id].expected_content_length matches Some(n)
            ==> c.streams.streams[d.stream_id].received_data_bytes + d.payload.len() == n),
    ensures
        ({
            let step = c.data_received(out, d);
            let id = d.stream_id;
            let s = c.streams.streams[id];
            let t = step.conn.streams.streams[id];
            let ended = d.flags % 2 == 1;
            let n = d.payload.len() + d.padding;
            &&& step.result is Ok
            &&& step.out == out
            &&& told(
                c,
                step.conn,
                if_open(s.recv_open, EventView::Data { stream_id: id, data: d.payload }) + if_open(
                    ended,
                    EventView::RecvClosed { stream_id: id },
                ),
            )
            &&& step.conn.conn_recv_flow.window == c.conn_recv_flow.window - n
            &&& step.conn.conn_recv_consumed == c.conn_recv_consumed + n
            &&& t.recv_flow.window == s.recv_flow.window - n
            &&& t.received_data_bytes == s.received_data_bytes + d.payload.len()
            &&& ended ==> peer_side_ended(s, t)
            &&& !ended ==> t.state == s.state && t.recv_open == s.recv_open && t.headers_open
                == s.headers_open
            &&& t == Stream {
                state: t.state,
                recv_flow: FlowControl { window: t.recv_flow.window, ..s.recv_flow },
                received_data_bytes: t.received_data_bytes,
                recv_open: t.recv_open,
                headers_open: t.headers_open,
                ..s
            }
            &&& only_stream(
                ConnView {
                    conn_recv_flow: FlowControl {
                        window: step.conn.conn_recv_flow.window,
                        ..c.conn_recv_flow
                    },
                    conn_recv_consumed: step.conn.conn_recv_consumed,
                    ..c
                },
                step.conn,
                id,
            )
        }),
{
    reveal(ConnView::data_received);
    let f = d.flags;
    assert((f & 1 != 0) == (f % 2 == 1)) by (bit_vector);
    let step = c.data_received(out, d);
    let s = c.streams.streams[d.stream_id];
    let data = EventView::Data { stream_id: d.stream_id, data: d.payload };
    let end = EventView::RecvClosed { stream_id: d.stream_id };
    assert(step.conn.events =~= c.events + (if_open(s.recv_open, data) + if_open(f % 2 == 1, end)));
    assert(step.conn.streams.streams =~= c.streams.streams.insert(
        d.stream_id,
        step.conn.streams.streams[d.stream_id],
    ));
}

/// Data that may not come is refused: beyond the connection's window, or on a stream that was
/// never opened, it ends the connection; beyond the stream's window, on a stream on which the
/// peer was done, or against the announced length, it fails the stream; on a stream that is
/// forgotten the peer is told to stop. None of it reaches the application but what came
/// before the length turned out to be too short.
pub proof fn lemma_data_is_refused(c: ConnView, out: WriterView, d: DataView)
    requires
        c.has_room_for(d),
        laws::recv_credit(c) <= MAX_31_BIT,
        d.stream_id <= MAX_31_BIT,
    ensures
        ({
            let step = c.data_received(out, d);
            let id = d.stream_id;
            let s = c.streams.streams[id];
            let n = d.payload.len() + d.padding as nat;
            let sum = s.received_data_bytes + d.payload.len();
            let fits = !overruns(n, c.conn_recv_flow);
            let open = c.streams.has(id) && peer_may_send(s);
            let charged = open && !overruns(n, s.recv_flow);
            let too_long = s.expected_content_length matches Some(l) && sum > l;
            let too_short = s.expected_content_length matches Some(l) && sum < l;
            &&& !fits ==> step == (Step {
                conn: c,
                out,
                result: connection_error(Reason::FlowControlError),
            })
            &&& fits ==> step.conn.conn_recv_flow.window == c.conn_recv_flow.window - n
            &&& fits && !c.streams.has(id) ==> step.conn.streams == c.streams && step.conn.events
                == c.events && if never_opened(c, id) {
                step.out == out && step.result == connection_error(Reason::ProtocolError)
            } else {
                step.result is Ok && wire::wrote(out, step.out, seq![wire::rst_stream(id, 5)])
            }
            &&& fits && c.streams.has(id) && !peer_may_send(s) ==> step.result == stream_error(
                id,
                Reason::StreamClosed,
            ) && step.conn.streams == c.streams && step.conn.events == c.events
            &&& fits && open && !charged ==> step.result == stream_error(
                id,
                Reason::FlowControlError,
            ) && step.conn.streams == c.streams && step.conn.events == c.events
            &&& fits && charged && too_long ==> step.result == stream_error(
                id,
                Reason::ProtocolError,
            ) && step.conn.events == c.events
            &&& fits && charged && too_short && d.flags % 2 == 1 ==> step.result == stream_error(
                id,
                Reason::ProtocolError,
            ) && told(
                c,
                step.conn,
                if_open(s.recv_open, EventView::Data { stream_id: id, data: d.payload }),
            )
        }),
{
    reveal(ConnView::data_received);
    let f = d.flags;
    assert((f & 1 != 0) == (f % 2 == 1)) by (bit_vector);
    wire::lemma_wrote_reason(out, d.stream_id, Reason::StreamClosed);
    let s = c.streams.streams[d.stream_id];
    let data = EventView::Data { stream_id: d.stream_id, data: d.payload };
    assert(c.events + Seq::<EventView>::empty() =~= c.events);
    assert(c.events.push(data) =~= c.events + seq![data]);
}

/// Whether a header list follows the rules for what a client receives: those for responses
/// or, without pseudo-headers, for trailers.
pub open spec fn client_accepts(fields: Seq<FieldView>) -> bool {
    &&& headers::no_pseudo(fields) || headers::pseudo_fault(fields, false) is None
    &&& !headers::any_prohibited(fields)
}

/// The headers of a response reach whoever waits for them, with the status; trailers reach
/// the reader of trailers. HEADERS with END_STREAM, be they a response or trailers, end the
/// peer's side of the stream, which is the last thing that is told; without it, the stream
/// stays open for the body, and trailers are an error.
pub proof fn lemma_responses_reach_the_application(
    c: ConnView,
    out: WriterView,
    h: HeadersView,
    fields: Seq<FieldView>,
)
    requires
        c.is_client,
        c.streams.has(h.stream_id),
        peer_may_send(c.streams.streams[h.stream_id]),
        client_accepts(fields),
    ensures
        ({
            let step = c.headers_received(out, h, Ok(fields));
            let id = h.stream_id;
            let s = c.streams.streams[id];
            let t = step.conn.streams.streams[id];
            let trailers = headers::no_pseudo(fields);
            let content = header_map::header_content(fields);
            let first = if trailers {
                if_open(s.recv_open, EventView::Trailers { stream_id: id, trailers: content })
            } else {
                if_open(
                    s.headers_open,
                    EventView::Response {
                        stream_id: id,
                        status: header_map::status_of_first(fields, fields.len() as int),
                        headers: content,
                    },
                )
            };
            &&& step.out == out
            &&& trailers && !h.end_stream ==> step.result == stream_error(
                id,
                Reason::ProtocolError,
            ) && step.conn == c
            &&& h.end_stream || !trailers ==> {
                &&& step.result is Ok
                &&& told(
                    c,
                    step.conn,
                    first + if_open(h.end_stream, EventView::RecvClosed { stream_id: id }),
                )
                &&& h.end_stream ==> peer_side_ended(s, t)
                &&& !h.end_stream ==> t.state == s.state && t.recv_open == s.recv_open
                    && t.headers_open == s.headers_open
                &&& t.expected_content_length == if trailers {
                    s.expected_content_length
                } else {
                    headers::announced_length(fields)
                }
                &&& t == Stream {
                    state: t.state,
                    expected_content_length: t.expected_content_length,
                    recv_open: t.recv_open,
                    headers_open: t.headers_open,
                    ..s
                }
                &&& only_stream(c, step.conn, id)
            }
        }),
{
    reveal(ConnView::headers_received);
    let step = c.headers_received(out, h, Ok(fields));
    let id = h.stream_id;
    let s = c.streams.streams[id];
    let content = header_map::header_content(fields);
    let first = if headers::no_pseudo(fields) {
        if_open(s.recv_open, EventView::Trailers { stream_id: id, trailers: content })
    } else {
        if_open(
            s.headers_open,
            EventView::Response {
                stream_id: id,
                status: header_map::status_of_first(fields, fields.len() as int),
                headers: content,
            },
        )
    };
    if h.end_stream || !headers::no_pseudo(fields) {
        let end = if_open(h.end_stream, EventView::RecvClosed { stream_id: id });
        assert(step.conn.events =~= c.events + (first + end));
        assert(step.conn.streams.streams =~= c.streams.streams.insert(
            id,
            step.conn.streams.streams[id],
        ));
    }
}

/// HEADERS that do not belong to a response are refused on a client, or ignored: a list that
/// breaks the rules for pseudo-headers fails the connection, one with a field that may not
/// occur fails its stream, and so does one on a stream on which the peer was done. On a stream
/// that is not known nothing happens.
pub proof fn lemma_client_refuses_headers(
    c: ConnView,
    out: WriterView,
    h: HeadersView,
    fields: Seq<FieldView>,
)
    requires
        c.is_client,
    ensures
        ({
            let step = c.headers_received(out, h, Ok(fields));
            let id = h.stream_id;
            let wrong = !headers::no_pseudo(fields) && headers::pseudo_fault(fields, false) is Some;
            let barred = headers::any_prohibited(fields);
            &&& wrong ==> step.conn == c && step.out == out && (step.result matches Err(e) && e
                is ConnectionError && e.reason() == Some(Reason::ProtocolError))
            &&& !wrong && barred ==> step == (Step {
                conn: c,
                out,
                result: stream_error(id, Reason::ProtocolError),
            })
            &&& !wrong && !barred && !c.streams.has(id) ==> step == (Step {
                conn: c,
                out,
                result: Ok(()),
            })
            &&& !wrong && !barred && c.streams.has(id) && !peer_may_send(c.streams.streams[id])
                ==> step == (Step { conn: c, out, result: stream_error(id, Reason::StreamClosed) })
        }),
{
    reveal(ConnView::headers_received);
}

/// Every request that a server takes opens its stream and is told, with its identifier and
/// exactly the header fields that came, if somebody accepts requests, and nothing else is
/// told but the end of a request without a body. The stream starts with the windows that both
/// ends have set, and with the length that was announced. A request above the limit, or while
/// the connection goes away, is refused with RST_STREAM and neither opens a stream nor is
/// told; one on an even stream, or not above all before it, fails the connection.
pub proof fn lemma_requests_reach_the_application(
    c: ConnView,
    out: WriterView,
    h: HeadersView,
    fields: Seq<FieldView>,
)
    requires
        !c.is_client,
        !c.streams.has(h.stream_id),
        h.stream_id <= MAX_31_BIT,
        headers::pseudo_fault(fields, true) is None,
        !headers::any_prohibited(fields),
    ensures
        ({
            let step = c.headers_received(out, h, Ok(fields));
            let id = h.stream_id;
            let t = step.conn.streams.streams[id];
            let proper = id % 2 == 1 && id > c.last_peer_stream_id;
            let refused = c.going_away || c.streams.active() >= c.streams.max_concurrent;
            let incoming = EventView::Incoming(
                IncomingView {
                    stream_id: id,
                    headers: fields,
                    recv: RecvView { stream_id: id, with_headers: false },
                },
            );
            &&& !proper ==> step.conn == c && step.out == out && (step.result matches Err(e) && e
                is ConnectionError && e.reason() == Some(Reason::ProtocolError))
            &&& proper && refused ==> step.conn == c && step.result is Ok && wire::wrote(
                out,
                step.out,
                seq![wire::rst_stream(id, 7)],
            )
            &&& proper && !refused ==> {
                &&& step.result is Ok
                &&& step.out == out
                &&& told(
                    c,
                    step.conn,
                    if_open(c.has_incoming, incoming) + if_open(
                        h.end_stream,
                        EventView::RecvClosed { stream_id: id },
                    ),
                )
                &&& step.conn.last_peer_stream_id == id
                &&& step.conn.streams.ids == c.streams.ids.push(id)
                &&& step.conn.streams.streams == c.streams.streams.insert(id, t)
                &&& t.state == if h.end_stream {
                    StreamState::HalfClosedRemote
                } else {
                    StreamState::Open
                }
                &&& t.recv_open == !h.end_stream
                &&& t.reset_open && !t.was_reset
                &&& c.settings.remote.initial_window_size <= MAX_31_BIT ==> t.send_flow.window
                    == c.settings.remote.initial_window_size
                &&& c.settings.local.initial_window_size <= MAX_31_BIT ==> t.recv_flow.window
                    == c.settings.local.initial_window_size
                &&& t.released == 0 && t.received_data_bytes == 0
                &&& t.expected_content_length == headers::announced_length(fields)
                &&& step.conn == ConnView {
                    events: step.conn.events,
                    last_peer_stream_id: id,
                    streams: StoreView {
                        ids: step.conn.streams.ids,
                        streams: step.conn.streams.streams,
                        ..c.streams
                    },
                    ..c
                }
            }
        }),
{
    reveal(ConnView::headers_received);
    if headers::no_pseudo(fields) {
        headers::lemma_request_rules(fields);
        headers::lemma_colon_names();
    }
    let step = c.headers_received(out, h, Ok(fields));
    let id = h.stream_id;
    wire::lemma_wrote_reason(out, id, Reason::RefusedStream);
    let incoming = EventView::Incoming(
        IncomingView {
            stream_id: id,
            headers: fields,
            recv: RecvView { stream_id: id, with_headers: false },
        },
    );
    if id % 2 == 1 && id > c.last_peer_stream_id && !c.going_away && c.streams.active()
        < c.streams.max_concurrent {
        let end = EventView::RecvClosed { stream_id: id };
        assert(step.conn.events =~= c.events + (if_open(c.has_incoming, incoming) + if_open(
            h.end_stream,
            end,
        )));
        assert(step.conn.streams.streams =~= c.streams.streams.insert(
            id,
            step.conn.streams.streams[id],
        ));
    }
}

/// Trailers on a server reach the reader of trailers and end the peer's side of the stream,
/// which is told last. Without END_STREAM, or where the peer was done, they fail the stream.
pub proof fn lemma_trailers_reach_the_application(
    c: ConnView,
    out: WriterView,
    h: HeadersView,
    fields: Seq<FieldView>,
)
    requires
        !c.is_client,
        c.streams.has(h.stream_id),
        headers::no_pseudo(fields) || headers::pseudo_fault(fields, true) is None,
        !headers::any_prohibited(fields),
    ensures
        ({
            let step = c.headers_received(out, h, Ok(fields));
            let id = h.stream_id;
            let s = c.streams.streams[id];
            let t = step.conn.streams.streams[id];
            let content = header_map::header_content(fields);
            &&& step.out == out
            &&& !peer_may_send(s) ==> step.conn == c && step.result == stream_error(
                id,
                Reason::StreamClosed,
            )
            &&& peer_may_send(s) && !h.end_stream ==> step.conn == c && step.result
                == stream_error(id, Reason::ProtocolError)
            &&& peer_may_send(s) && h.end_stream ==> {
                &&& step.result is Ok
                &&& told(
                    c,
                    step.conn,
                    if_open(
                        s.recv_open,
                        EventView::Trailers { stream_id: id, trailers: content },
                    ) + seq![EventView::RecvClosed { stream_id: id }],
                )
                &&& peer_side_ended(s, t)
                &&& t == Stream { state: t.state, recv_open: false, headers_open: false, ..s }
                &&& only_stream(c, step.conn, id)
            }
        }),
{
    reveal(ConnView::headers_received);
    let step = c.headers_received(out, h, Ok(fields));
    let id = h.stream_id;
    let s = c.streams.streams[id];
    if peer_may_send(s) && h.end_stream {
        let first = if_open(
            s.recv_open,
            EventView::Trailers {
                stream_id: id,
                trailers: header_map::header_content(fields),
            },
        );
        assert(step.conn.events =~= c.events + (first + seq![
            EventView::RecvClosed { stream_id: id },
        ]));
        assert(step.conn.streams.streams =~= c.streams.streams.insert(
            id,
            step.conn.streams.streams[id],
        ));
    }
}

/// A header list that breaks the rules opens no stream on a server, and nothing is told of it:
/// wrong pseudo-headers fail the connection, a field that may not occur fails the stream. A
/// header block that could not be decoded fails with the error of the decoder.
pub proof fn lemma_server_refuses_headers(
    c: ConnView,
    out: WriterView,
    h: HeadersView,
    fields: Seq<FieldView>,
    e: ErrorView,
)
    ensures
        c.headers_received(out, h, Err(e)) == (Step { conn: c, out, result: Err(e) }),
        ({
            let step = c.headers_received(out, h, Ok(fields));
            let trailers = headers::no_pseudo(fields) && c.streams.has(h.stream_id);
            let wrong = !trailers && headers::pseudo_fault(fields, true) is Some;
            &&& !c.is_client && wrong ==> step.conn == c && step.out == out && (step.result matches Err(
                e,
            ) && e is ConnectionError && e.reason() == Some(Reason::ProtocolError))
            &&& !c.is_client && !wrong && headers::any_prohibited(fields) ==> step == (Step {
                conn: c,
                out,
                result: stream_error(h.stream_id, Reason::ProtocolError),
            })
        }),
{
    reveal(ConnView::headers_received);
}

/// A reset by the peer closes its stream for good. The readers of data and trailers are told
/// the error, with the peer's reason, and whoever waits for a reset the reason; then comes the
/// end. On a stream that was never opened it ends the connection, and on one that is forgotten
/// nothing happens.
pub proof fn lemma_reset_reaches_the_application(c: ConnView, f: RstStreamView, now: u128)
    ensures
        ({
            let step = c.reset_received(f, now);
            let id = f.stream_id;
            let s = c.streams.streams[id];
            let t = step.conn.streams.streams[id];
            let error = ErrorView::StreamError { stream_id: id, reason: f.reason, remote: true };
            &&& !c.streams.has(id) ==> step.conn == c && step.result == if never_opened(c, id) {
                connection_error(Reason::ProtocolError)
            } else {
                Ok(())
            }
            &&& c.streams.has(id) ==> {
                &&& told(
                    c,
                    step.conn,
                    if_open(s.recv_open, EventView::DataError { stream_id: id, error }) + if_open(
                        s.recv_open,
                        EventView::TrailersError { stream_id: id, error },
                    ) + if_open(
                        s.reset_open,
                        EventView::Reset { stream_id: id, reason: f.reason },
                    ) + seq![EventView::RecvClosed { stream_id: id }],
                )
                &&& t == Stream {
                    state: StreamState::Closed,
                    recv_open: false,
                    headers_open: false,
                    reset_open: false,
                    was_reset: true,
                    ..s
                }
                &&& only_stream(
                    ConnView {
                        streams: StoreView {
                            resets: step.conn.streams.resets,
                            ..c.streams
                        },
                        ..c
                    },
                    step.conn,
                    id,
                )
                &&& step.result is Ok || step.result == connection_error(Reason::EnhanceYourCalm)
            }
        }),
{
    reveal(ConnView::reset_received);
    let step = c.reset_received(f, now);
    let id = f.stream_id;
    if c.streams.has(id) {
        let s = c.streams.streams[id];
        let error = ErrorView::StreamError { stream_id: id, reason: f.reason, remote: true };
        assert(step.conn.events =~= c.events + (if_open(
            s.recv_open,
            EventView::DataError { stream_id: id, error },
        ) + if_open(s.recv_open, EventView::TrailersError { stream_id: id, error }) + if_open(
            s.reset_open,
            EventView::Reset { stream_id: id, reason: f.reason },
        ) + seq![EventView::RecvClosed { stream_id: id }]));
        assert(step.conn.streams.streams =~= c.streams.streams.insert(
            id,
            step.conn.streams.streams[id],
        ));
    }
}

/// A PING is answered at once with its eight bytes, and nothing else happens. The answer to
/// the PING that this end waits for ends the wait; any other answer does not.
pub proof fn lemma_ping_is_answered(c: ConnView, out: WriterView, f: PingView)
    requires
        f.opaque_data.len() == 8,
    ensures
        ({
            let step = c.ping_received(out, f);
            &&& step.result is Ok
            &&& !f.ack ==> step.conn == c && wire::wrote(
                out,
                step.out,
                seq![wire::pong(f.opaque_data)],
            )
            &&& f.ack ==> step.out == out && step.conn == (ConnView {
                ping_pong: step.conn.ping_pong,
                ..c
            })
            &&& f.ack && c.ping_pong == Some(f.opaque_data) ==> step.conn.ping_pong is None
            &&& f.ack && c.ping_pong != Some(f.opaque_data) ==> step.conn.ping_pong == c.ping_pong
        }),
{
    reveal(ConnView::ping_received);
    wire::lemma_wrote_control(out, 0, 0, f.opaque_data);
}

/// WINDOW_UPDATE lets this end send so much more: on the connection, or on the one stream that
/// it names. Where the window would become too large, the connection or the stream fails, and
/// the window stays.
pub proof fn lemma_window_update_is_added(c: ConnView, f: WindowUpdateView)
    ensures
        ({
            let step = c.window_update_received(f);
            let id = f.stream_id;
            let s = c.streams.streams[id];
            let t = step.conn.streams.streams[id];
            let whole = c.conn_send_flow.window + f.size_increment;
            let part = s.send_flow.window + f.size_increment;
            &&& id == 0 && whole <= 0x7fff_ffff ==> step.result is Ok
                && step.conn.conn_send_flow.window == whole && step.conn == (ConnView {
                conn_send_flow: FlowControl {
                    window: step.conn.conn_send_flow.window,
                    ..c.conn_send_flow
                },
                ..c
            })
            &&& id == 0 && whole > 0x7fff_ffff ==> step.conn == c && step.result
                == connection_error(Reason::FlowControlError)
            &&& id != 0 && c.streams.has(id) && part <= 0x7fff_ffff ==> step.result is Ok
                && t.send_flow.window == part && t == (Stream {
                send_flow: FlowControl { window: t.send_flow.window, ..s.send_flow },
                ..s
            }) && step.conn.events == c.events && only_stream(c, step.conn, id)
            &&& id != 0 && c.streams.has(id) && part > 0x7fff_ffff ==> step.conn == c
                && step.result == stream_error(id, Reason::FlowControlError)
            &&& id != 0 && !c.streams.has(id) ==> step.conn == c && step.result == if never_opened(
                c,
                id,
            ) {
                connection_error(Reason::ProtocolError)
            } else {
                Ok(())
            }
        }),
{
    reveal(ConnView::window_update_received);
}

/// The value that one end goes by after a parameter was, or was not, stated.
pub open spec fn agreed(stated: Option<u32>, before: u32) -> u32 {
    match stated {
        Some(v) => v,
        None => before,
    }
}

/// SETTINGS of the peer take effect at once and are acknowledged with one frame: every
/// parameter that is stated replaces the peer's value, all others stay, and this end's own
/// settings do not change. A client may open as many streams as the peer says; a server's
/// limit is its own. Streams change in nothing but their send windows, and not at all where
/// the initial window is not stated.
pub proof fn lemma_settings_take_effect(c: ConnView, out: WriterView, f: SettingsView, id: u32)
    requires
        c.streams.wf(),
        !f.ack,
    ensures
        ({
            let step = c.settings_received(out, f);
            let after = step.conn.settings.remote;
            let before = c.settings.remote;
            &&& after.header_table_size == agreed(f.header_table_size, before.header_table_size)
            &&& after.enable_push == match f.enable_push {
                Some(b) => b,
                None => before.enable_push,
            }
            &&& after.max_concurrent_streams == agreed(
                f.max_concurrent_streams,
                before.max_concurrent_streams,
            )
            &&& after.initial_window_size == agreed(
                f.initial_window_size,
                before.initial_window_size,
            )
            &&& after.max_frame_size == agreed(f.max_frame_size, before.max_frame_size)
            &&& after.max_header_list_size == agreed(
                f.max_header_list_size,
                before.max_header_list_size,
            )
            &&& step.conn.streams.max_concurrent == if c.is_client {
                agreed(f.max_concurrent_streams, c.streams.max_concurrent)
            } else {
                c.streams.max_concurrent
            }
            &&& step.conn == ConnView {
                settings: ConnSettings { remote: after, ..c.settings },
                streams: StoreView {
                    max_concurrent: step.conn.streams.max_concurrent,
                    streams: step.conn.streams.streams,
                    ..c.streams
                },
                ..c
            }
            &&& step.conn.streams.has(id) == c.streams.has(id)
            &&& c.streams.has(id) ==> step.conn.streams.streams[id] == (Stream {
                send_flow: step.conn.streams.streams[id].send_flow,
                ..c.streams.streams[id]
            })
            &&& f.initial_window_size is None ==> step.result is Ok && step.conn.streams.streams
                == c.streams.streams
            &&& f.initial_window_size matches Some(size) ==> ((forall|other: u32| #[trigger]
                c.streams.has(other) ==> can_be_resized(
                    c.streams.streams[other].send_flow,
                    flow_control::signed(size),
                )) ==> step.result is Ok)
            &&& step.result is Ok ==> wire::wrote(out, step.out, seq![wire::settings_ack()])
            &&& step.result is Err ==> step.out == out && step.result == connection_error(
                Reason::FlowControlError,
            )
        }),
{
    reveal(ConnView::settings_received);
    wire::lemma_wrote_control(out, 0, 0, Seq::new(8, |i: int| 0u8));
    let max = match f.max_concurrent_streams {
        Some(max) if c.is_client => max,
        _ => c.streams.max_concurrent,
    };
    let store = StoreView { max_concurrent: max, ..c.streams };
    assert(store =~= match f.max_concurrent_streams {
        Some(max) if c.is_client => StoreView { max_concurrent: max, ..c.streams },
        _ => c.streams,
    });
    if let Some(size) = f.initial_window_size {
        let size = flow_control::signed(size);
        lemma_resizing_keeps_the_rest(store, store.ids.len() as int, size, Direction::Send, id);
        if forall|other: u32| #[trigger]
            c.streams.has(other) ==> can_be_resized(c.streams.streams[other].send_flow, size) {
            assert forall|other: u32| #[trigger] store.has(other) implies can_be_resized(
                store.streams[other].send_flow,
                size,
            ) by {
                assert(c.streams.has(other));
            }
            lemma_resizing_succeeds(store, store.ids.len() as int, size, Direction::Send);
        }
    }
}

/// Whether a window stays in range when its initial size becomes `size`.
pub open spec fn can_be_resized(flow: FlowControl, size: i32) -> bool {
    i32::MIN <= flow.window + (size - flow.initial) <= i32::MAX
}

pub(crate) proof fn lemma_resizing_keeps_the_rest(
    store: StoreView,
    n: int,
    size: i32,
    dir: Direction,
    id: u32,
)
    requires
        store.wf(),
        0 <= n <= store.ids.len(),
    ensures
        ({
            let after = store.first_resized(n, size, dir).0;
            &&& after.has(id) == store.has(id)
            &&& store.has(id) && dir is Send ==> after.streams[id] == (Stream {
                send_flow: after.streams[id].send_flow,
                ..store.streams[id]
            })
            &&& store.has(id) && dir is Recv ==> after.streams[id] == (Stream {
                recv_flow: after.streams[id].recv_flow,
                ..store.streams[id]
            })
            &&& after == StoreView { streams: after.streams, ..store }
        }),
    decreases n,
{
    if n > 0 {
        lemma_resizing_keeps_the_rest(store, n - 1, size, dir, id);
        let at = store.ids[n - 1];
        assert(store.ids.contains(at));
        if at != id {
            lemma_resizing_keeps_the_rest(store, n - 1, size, dir, at);
        }
    }
}

pub(crate) proof fn lemma_resizing_succeeds(store: StoreView, n: int, size: i32, dir: Direction)
    requires
        store.wf(),
        0 <= n <= store.ids.len(),
        forall|id: u32| #[trigger]
            store.has(id) ==> can_be_resized(
                match dir {
                    Direction::Send => store.streams[id].send_flow,
                    Direction::Recv => store.streams[id].recv_flow,
                },
                size,
            ),
    ensures
        store.first_resized(n, size, dir).1,
        forall|k: int|
            n <= k < store.ids.len() ==> store.first_resized(n, size, dir).0.streams[
            #[trigger] store.ids[k]] == store.streams[store.ids[k]],
    decreases n,
{
    if n > 0 {
        lemma_resizing_succeeds(store, n - 1, size, dir);
        let at = store.ids[n - 1];
        assert(store.ids.contains(at));
        assert(store.has(at));
    }
}

/// An acknowledgement changes nothing but what is waited for. If other settings were held back
/// until it came, they are sent now, once, and their acknowledgement is waited for; otherwise
/// nothing is written.
pub proof fn lemma_acknowledgement_releases_settings(c: ConnView, out: WriterView, f: SettingsView)
    requires
        f.ack,
    ensures
        ({
            let step = c.settings_received(out, f);
            let held = c.settings.sync == SyncState::WaitingAck { queued: true };
            &&& step.result is Ok
            &&& step.conn == ConnView {
                settings: ConnSettings { sync: step.conn.settings.sync, ..c.settings },
                ..c
            }
            &&& !held ==> step.out == out && step.conn.settings.sync == SyncState::Synced
            &&& held ==> step.conn.settings.sync == SyncState::WaitingAck { queued: false }
                && exists|payload: Seq<u8>| #[trigger]
                wire::read_parameters(payload) == announcement(c.settings.local) && wire::wrote(
                    out,
                    step.out,
                    seq![wire::RawFrame { kind: 4, flags: 0, stream_id: 0, payload }],
                )
        }),
{
    reveal(ConnView::settings_received);
    lemma_announcement_is_written(out, c.settings.local);
}

/// What an end states of its settings: its initial window always, and the others where they
/// differ from what a peer goes by unless it is told.
pub open spec fn announcement(v: SettingValues) -> Seq<(int, int)> {
    wire::stated(
        1,
        if v.header_table_size != 4096 {
            Some(v.header_table_size)
        } else {
            None
        },
    ) + wire::stated(
        2,
        if !v.enable_push {
            Some(0)
        } else {
            None
        },
    ) + wire::stated(
        3,
        if v.max_concurrent_streams != u32::MAX {
            Some(v.max_concurrent_streams)
        } else {
            None
        },
    ) + wire::stated(4, Some(v.initial_window_size)) + wire::stated(
        5,
        if v.max_frame_size != 16_384 {
            Some(v.max_frame_size)
        } else {
            None
        },
    ) + wire::stated(
        6,
        if v.max_header_list_size != u32::MAX {
            Some(v.max_header_list_size)
        } else {
            None
        },
    )
}

/// The SETTINGS frame of an end, read from the wire, is its announcement.
pub proof fn lemma_announcement_is_written(out: WriterView, v: SettingValues)
    ensures
        wire::read_parameters(v.announced().payload()) == announcement(v),
        wire::wrote(
            out,
            out.frame(v.announced().bytes()),
            seq![
                wire::RawFrame {
                    kind: 4,
                    flags: 0,
                    stream_id: 0,
                    payload: v.announced().payload(),
                },
            ],
        ),
{
    wire::lemma_settings_read_back(out, v.announced());
}

/// GOAWAY of the peer: the reader of every stream that it will not process is told the error,
/// with the peer's reason and the last stream that it names, and so is whoever waits for a
/// reset; whoever waits for a new stream is told that there will be none.
pub proof fn lemma_goaway_reaches_the_application(c: ConnView, f: GoAwayView, id: u32, i: int)
    requires
        c.streams.wf(),
    ensures
        ({
            let after = c.goaway_received(f);
            let s = c.streams.streams[id];
            let cut = c.streams.has(id) && id > f.last_stream_id;
            &&& after.going_away
            &&& after.ready_waiters.len() == 0
            &&& cut && s.recv_open ==> after.events.contains(
                EventView::DataError {
                    stream_id: id,
                    error: ErrorView::GoAway {
                        last_stream_id: f.last_stream_id,
                        reason: f.error_code,
                        debug_data: f.debug_data,
                    },
                },
            )
            &&& cut && s.reset_open ==> after.events.contains(
                EventView::Reset { stream_id: id, reason: f.error_code },
            )
            &&& cut ==> after.events.contains(EventView::RecvClosed { stream_id: id })
            &&& 0 <= i < c.ready_waiters.len() ==> after.events.contains(
                EventView::Done {
                    ticket: c.ready_waiters[i],
                    result: connection_error(Reason::RefusedStream),
                },
            )
            &&& after == ConnView {
                going_away: true,
                streams: StoreView { streams: after.streams.streams, ..c.streams },
                ready_waiters: Seq::empty(),
                events: after.events,
                ..c
            }
        }),
{
    reveal(ConnView::goaway_received);
    let start = ConnView { going_away: true, ..c };
    let n = c.streams.ids.len() as int;
    let cut = start.streams_abandoned(n, f);
    lemma_abandoned_are_told(start, n, f, id);
    let refusal = |t: Ticket|
        EventView::Done { ticket: t, result: connection_error(Reason::RefusedStream) };
    let after = c.goaway_received(f);
    assert(after.events =~= cut.events + c.ready_waiters.map_values(refusal));
    assert forall|e: EventView| cut.events.contains(e) implies #[trigger] after.events.contains(
        e,
    ) by {
        let k = cut.events.index_of(e);
        assert(after.events[k] == e);
    }
    if 0 <= i < c.ready_waiters.len() {
        assert(after.events[cut.events.len() + i] == refusal(c.ready_waiters[i]));
    }
    if c.streams.has(id) {
        assert(c.streams.ids.contains(id));
        assert(c.streams.ids[c.streams.ids.index_of(id)] == id);
        assert(among_first(start, n, id));
        lemma_one_is_abandoned(start, id, f);
    }
}

/// What is told of a stream that the peer will not process.
spec fn abandonment(s: Stream, id: u32, f: GoAwayView) -> Seq<EventView> {
    if_open(
        s.recv_open,
        EventView::DataError {
            stream_id: id,
            error: ErrorView::GoAway {
                last_stream_id: f.last_stream_id,
                reason: f.error_code,
                debug_data: f.debug_data,
            },
        },
    ) + if_open(s.reset_open, EventView::Reset { stream_id: id, reason: f.error_code }) + seq![
        EventView::RecvClosed { stream_id: id },
    ]
}

proof fn lemma_one_is_abandoned(c: ConnView, id: u32, f: GoAwayView)
    requires
        c.streams.has(id),
    ensures
        ({
            let after = c.stream_abandoned(id, f);
            let s = c.streams.streams[id];
            &&& told(c, after, abandonment(s, id, f))
            &&& only_stream(c, after, id)
            &&& s.recv_open ==> abandonment(s, id, f).contains(
                EventView::DataError {
                    stream_id: id,
                    error: ErrorView::GoAway {
                        last_stream_id: f.last_stream_id,
                        reason: f.error_code,
                        debug_data: f.debug_data,
                    },
                },
            )
            &&& s.reset_open ==> abandonment(s, id, f).contains(
                EventView::Reset { stream_id: id, reason: f.error_code },
            )
            &&& abandonment(s, id, f).contains(EventView::RecvClosed { stream_id: id })
        }),
{
    let after = c.stream_abandoned(id, f);
    let s = c.streams.streams[id];
    let more = abandonment(s, id, f);
    assert(after.events =~= c.events + more);
    assert(after.streams.streams =~= c.streams.streams.insert(id, after.streams.streams[id]));
    assert(more[more.len() - 1] == (EventView::RecvClosed { stream_id: id }));
    if s.recv_open {
        assert(more[0] is DataError);
    }
    if s.reset_open {
        assert(more[more.len() - 2] == (EventView::Reset { stream_id: id, reason: f.error_code }));
    }
}

/// What was told, before or now, stays among what was told.
pub(crate) proof fn lemma_told_is_kept(before: ConnView, after: ConnView, more: Seq<EventView>)
    requires
        told(before, after, more),
    ensures
        forall|e: EventView| before.events.contains(e) ==> #[trigger] after.events.contains(e),
        forall|e: EventView| more.contains(e) ==> #[trigger] after.events.contains(e),
{
    assert forall|e: EventView| before.events.contains(e) implies #[trigger] after.events.contains(
        e,
    ) by {
        assert(after.events[before.events.index_of(e)] == e);
    }
    assert forall|e: EventView| more.contains(e) implies #[trigger] after.events.contains(e) by {
        assert(after.events[before.events.len() + more.index_of(e)] == e);
    }
}

/// Whether one of the first `n` streams is `id`.
pub(crate) open spec fn among_first(c: ConnView, n: int, id: u32) -> bool {
    exists|k: int| 0 <= k < n && c.streams.ids[k] == id
}

proof fn lemma_abandoned_are_told(c: ConnView, n: int, f: GoAwayView, id: u32)
    requires
        c.streams.wf(),
        0 <= n <= c.streams.ids.len(),
    ensures
        ({
            let after = c.streams_abandoned(n, f);
            let s = c.streams.streams[id];
            let cut = among_first(c, n, id) && id > f.last_stream_id;
            &&& after == ConnView {
                streams: StoreView { streams: after.streams.streams, ..c.streams },
                events: after.events,
                ..c
            }
            &&& after.streams.streams.dom() == c.streams.streams.dom()
            &&& !among_first(c, n, id) ==> after.streams.streams[id] == s
            &&& cut ==> forall|e: EventView|
                abandonment(s, id, f).contains(e) ==> #[trigger] after.events.contains(e)
        }),
    decreases n,
{
    if n > 0 {
        lemma_abandoned_are_told(c, n - 1, f, id);
        let before = c.streams_abandoned(n - 1, f);
        let after = c.streams_abandoned(n, f);
        let at = c.streams.ids[n - 1];
        assert(c.streams.ids.contains(at));
        assert(c.streams.has(at));
        if at == id {
            assert(c.streams.ids[n - 1] == id);
            assert(!among_first(c, n - 1, id));
        } else {
            assert(among_first(c, n, id) == among_first(c, n - 1, id)) by {
                if among_first(c, n, id) {
                    let k = choose|k: int| 0 <= k < n && c.streams.ids[k] == id;
                    assert(k < n - 1);
                }
            }
        }
        if at > f.last_stream_id {
            lemma_one_is_abandoned(before, at, f);
            lemma_told_is_kept(before, after, abandonment(before.streams.streams[at], at, f));
            assert(after.streams.streams.dom() =~= c.streams.streams.dom());
        }
    }
}

/// Every frame does what is said of its type, and a failure of one stream is answered with
/// RST_STREAM: it has the stream and the reason, the stream is closed, its reader sees the
/// end, and the connection goes on. Any other failure ends the connection. PRIORITY does
/// nothing; a CONTINUATION on its own is an error.
pub proof fn lemma_frames_are_handled(
    c: ConnView,
    out: WriterView,
    f: FrameView,
    decoded: Result<Seq<FieldView>, ErrorView>,
    now: u128,
)
    ensures
        ({
            let step = c.frame_received(out, f, decoded, now);
            let by_itself = match f {
                FrameView::Data(d) => c.data_received(out, d),
                FrameView::Headers(h) => c.headers_received(out, h, decoded),
                FrameView::RstStream(r) => c.reset_received(r, now).with(out),
                FrameView::Settings(s) => c.settings_received(out, s),
                FrameView::Ping(p) => c.ping_received(out, p),
                FrameView::GoAway(g) => Step { conn: c.goaway_received(g), out, result: Ok(()) },
                FrameView::WindowUpdate(w) => c.window_update_received(w).with(out),
                FrameView::Priority(_) => Step { conn: c, out, result: Ok(()) },
                FrameView::Continuation(_) => Step {
                    conn: c,
                    out,
                    result: connection_error(Reason::ProtocolError),
                },
            };
            &&& by_itself.result is Ok ==> step == by_itself
            &&& by_itself.result matches Err(ErrorView::StreamError { stream_id, reason, .. }) ==> (
            stream_id <= MAX_31_BIT ==> {
                let s = by_itself.conn.streams.streams[stream_id];
                &&& step.result is Ok
                &&& wire::wrote(
                    by_itself.out,
                    step.out,
                    seq![wire::rst_stream(stream_id, reason.spec_code())],
                )
                &&& !by_itself.conn.streams.has(stream_id) ==> step.conn == by_itself.conn
                &&& by_itself.conn.streams.has(stream_id) ==> {
                    &&& step.conn.streams.streams[stream_id] == (Stream {
                        state: StreamState::Closed,
                        recv_open: false,
                        headers_open: false,
                        was_reset: true,
                        ..s
                    })
                    &&& told(by_itself.conn, step.conn, seq![EventView::RecvClosed { stream_id }])
                    &&& only_stream(by_itself.conn, step.conn, stream_id)
                }
            })
            &&& by_itself.result matches Err(ErrorView::ConnectionError { reason, message })
                ==> step == by_itself
            &&& by_itself.result matches Err(e) ==> (!(e is StreamError) ==> step.result is Err
                && step.conn == by_itself.conn && step.out == by_itself.out && (
            step.result matches Err(told) && (e.reason() is Some ==> told == e) && (e is HpackDecode
                || e is Hpack ==> told.reason() == Some(Reason::CompressionError)) && (e is Protocol
                || e is InvalidFrame || e is Frame ==> told.reason() == Some(
                Reason::ProtocolError,
            ))))
        }),
{
    reveal(ConnView::frame_received);
    reveal(ConnView::frame_processed);
    let p = c.frame_processed(out, f, decoded, now);
    if let Err(ErrorView::StreamError { stream_id, reason, .. }) = p.result {
        if stream_id <= MAX_31_BIT {
            wire::lemma_wrote_reason(p.out, stream_id, reason);
            let step = c.frame_received(out, f, decoded, now);
            if p.conn.streams.has(stream_id) {
                assert(step.conn.events =~= p.conn.events + seq![
                    EventView::RecvClosed { stream_id },
                ]);
                assert(step.conn.streams.streams =~= p.conn.streams.streams.insert(
                    stream_id,
                    step.conn.streams.streams[stream_id],
                ));
            }
        }
    }
}

} // verus!
