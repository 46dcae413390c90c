//! What holds of a connection as a whole, whatever messages it takes.

use crate::codec::split;
use crate::codec::writer::WriterView;
use crate::error::{ErrorView, Reason};
use crate::frame;
use crate::frame::control::{GoAwayView, RstStreamView, WindowUpdateView};
use crate::frame::data::DataView;
use crate::frame::FrameView;
use crate::proto::connection;
use crate::proto::connection::{ConnView, PendingView, Step};
use crate::proto::event_loop;
use crate::proto::events::{CommandView, EventView, JobView, MsgView, Ticket};
use crate::proto::flow_control;
use crate::proto::flow_control::FlowControl;
use crate::proto::headers;
use crate::proto::headers::FieldView;
use crate::proto::send::{CapacityAnswer, NewStream, OutcomeView};
use crate::proto::streams;
use crate::proto::streams::{Direction, StoreView, Stream};
use vstd::prelude::*;

verus! {

/// How much the peer may have sent on the connection in all, beyond what it was given
/// back: what the window still holds, and what was taken from it and not given back.
pub open spec fn recv_credit(c: ConnView) -> int {
    c.conn_recv_flow.window + c.conn_recv_consumed
}

/// Whether the window, with what was taken from it, reaches its target.
pub open spec fn target_is_covered(c: ConnView) -> bool {
    recv_credit(c) >= c.conn_recv_target
}

/// Receiving data moves bytes from the window to the count of consumed ones, and giving
/// the window back moves them the other way: none is lost, whatever comes of the frame,
/// unless the target of the window was lowered. Half of the target used up brings the window
/// back to it.
pub proof fn lemma_connection_credit_is_kept(c: ConnView, out: WriterView, d: DataView)
    requires
        recv_credit(c) <= frame::MAX_31_BIT,
    ensures
        recv_credit(c.data_received(out, d).conn) == recv_credit(c),
        ({
            let after = c.connection_window_updated(out).0;
            &&& recv_credit(c) == c.conn_recv_target ==> recv_credit(after) == recv_credit(c)
            &&& c.recv_window_is_low() ==> after.conn_recv_flow.window == c.conn_recv_target
                && after.conn_recv_consumed == 0
        }),
{
    reveal(ConnView::data_received);
}

/// A target for the connection's receive window takes effect at once where it is larger than
/// the window. Where it is smaller, the window shrinks as data arrives: nothing is given back
/// while more than half of the target is left, and never so much that the window grows beyond
/// the target, or that more is given back than was used.
pub proof fn lemma_window_follows_its_target(c: ConnView, out: WriterView, size: u32)
    requires
        target_is_covered(c),
        size <= frame::MAX_31_BIT,
    ensures
        ({
            let set = c.target_window_set(out, size).conn;
            &&& set.conn_recv_target == size
            &&& set.conn_recv_flow.window == if size > c.conn_recv_flow.window {
                size as int
            } else {
                c.conn_recv_flow.window as int
            }
            &&& size <= c.conn_recv_flow.window ==> c.target_window_set(out, size).out == out
            &&& target_is_covered(set)
        }),
        ({
            let (after, written) = c.connection_window_updated(out);
            let half_left = c.conn_recv_target - flow_control::half(c.conn_recv_target);
            &&& c.conn_recv_target >= 0 && c.conn_recv_flow.window > half_left ==> after == c
                && written == out
            &&& c.conn_recv_flow.window >= c.conn_recv_target ==> after == c && written == out
            &&& after != c ==> after.conn_recv_flow.window == c.conn_recv_target
            &&& after.conn_recv_flow.window - c.conn_recv_flow.window <= c.conn_recv_consumed
            &&& target_is_covered(after)
        }),
{
}

/// Data is charged to the connection and to its stream with the padding that it had on the
/// wire, and the announced length is held against the data alone.
pub proof fn lemma_padding_is_charged(c: ConnView, out: WriterView, d: DataView)
    requires
        c.has_room_for(d),
        c.data_received(out, d).result is Ok,
        c.streams.has(d.stream_id),
    ensures
        ({
            let after = c.data_received(out, d).conn;
            let s = c.streams.streams[d.stream_id];
            let t = after.streams.streams[d.stream_id];
            &&& c.conn_recv_flow.window - after.conn_recv_flow.window == d.flow_controlled_len()
            &&& s.recv_flow.window - t.recv_flow.window == d.flow_controlled_len()
            &&& t.received_data_bytes - s.received_data_bytes == d.payload.len()
        }),
{
    reveal(ConnView::data_received);
}

/// No more data is received on a stream than was announced for it.
pub proof fn lemma_announced_length_is_enforced(c: ConnView, out: WriterView, d: DataView)
    requires
        c.has_room_for(d),
        c.data_received(out, d).result is Ok,
        c.streams.has(d.stream_id),
    ensures
        ({
            let t = c.data_received(out, d).conn.streams.streams[d.stream_id];
            t.expected_content_length matches Some(n) ==> t.received_data_bytes <= n && (
            d.end_stream() ==> t.received_data_bytes == n)
        }),
{
    reveal(ConnView::data_received);
}

/// Sending charges both windows by exactly what is sent, and never more than they hold: a
/// window that was not negative does not become so.
pub proof fn lemma_sending_respects_windows(c: ConnView, out: WriterView, p: PendingView)
    ensures
        ({
            let step = c.send_tried(out, p);
            let used = c.conn_send_flow.window - step.conn.conn_send_flow.window;
            &&& 0 <= used <= c.conn_send_flow.spec_available()
            &&& match step.outcome {
                OutcomeView::Queued(q) => used == p.data.len() - q.data.len(),
                OutcomeView::Sent => used == p.data.len(),
                OutcomeView::Errored => used == 0 && step.out == out,
            }
            &&& c.streams.has(p.stream_id) ==> {
                let s = c.streams.streams[p.stream_id];
                let t = step.conn.streams.streams[p.stream_id];
                &&& 0 <= s.send_flow.window - t.send_flow.window
                    <= s.send_flow.spec_available()
                &&& s.send_flow.window - t.send_flow.window == used
            }
            &&& !c.streams.has(p.stream_id) ==> used == 0
        }),
{
    reveal(ConnView::send_tried);
    reveal(ConnView::data_sent);
}

/// Data that one of the windows does not hold, however long it is, is not sent.
pub proof fn lemma_data_beyond_a_window_is_refused(
    c: ConnView,
    out: WriterView,
    id: u32,
    data: Seq<u8>,
    end_stream: bool,
)
    requires
        data.len() > c.conn_send_flow.spec_available() || c.streams.has(id) && data.len()
            > c.streams.streams[id].send_flow.spec_available(),
    ensures
        c.data_sent(out, id, data, end_stream).result is Err,
        c.data_sent(out, id, data, end_stream).out == out,
{
    reveal(ConnView::data_sent);
}

/// Whether a window was at most used up: it did not grow, and did not become negative.
pub open spec fn at_most_used_up(before: FlowControl, after: FlowControl) -> bool {
    &&& after.window <= before.window
    &&& after.window >= 0 || after.window == before.window
}

/// Whether the send windows of the connection and of all streams were at most used up.
pub open spec fn windows_respected(a: ConnView, b: ConnView) -> bool {
    &&& at_most_used_up(a.conn_send_flow, b.conn_send_flow)
    &&& a.streams.streams.dom() == b.streams.streams.dom()
    &&& forall|id: u32|
        a.streams.has(id) ==> at_most_used_up(
            a.streams.streams[id].send_flow,
            (#[trigger] b.streams.streams[id]).send_flow,
        )
}

pub(crate) proof fn lemma_items_respect_windows(c: ConnView, out: WriterView, items: Seq<PendingView>)
    ensures
        windows_respected(c, c.items_sent(out, items).conn),
    decreases items.len(),
{
    if items.len() > 0 {
        let step = c.send_tried(out, items[0]);
        assert(windows_respected(c, step.conn)) by {
            reveal(ConnView::send_tried);
            reveal(ConnView::data_sent);
            assert(step.conn.streams.streams.dom() =~= c.streams.streams.dom());
        }
        lemma_items_respect_windows(step.conn, step.out, items.drop_first());
        let end = c.items_sent(out, items).conn;
        assert forall|id: u32| c.streams.has(id) implies at_most_used_up(
            c.streams.streams[id].send_flow,
            (#[trigger] end.streams.streams[id]).send_flow,
        ) by {
            assert(step.conn.streams.has(id));
            assert(at_most_used_up(
                c.streams.streams[id].send_flow,
                step.conn.streams.streams[id].send_flow,
            ));
        }
    }
}

/// The peer's windows are respected whenever data is sent: on request, however much may
/// wait already, and when what waits is flushed.
pub proof fn lemma_windows_are_never_overdrawn(c: ConnView, out: WriterView, p: PendingView)
    ensures
        windows_respected(c, c.send_requested(out, p).conn),
        windows_respected(c, c.sends_flushed(out).0),
{
    assert(windows_respected(c, c.send_requested(out, p).conn)) by {
        reveal(ConnView::send_tried);
        reveal(ConnView::data_sent);
        assert(c.send_requested(out, p).conn.streams.streams.dom() =~= c.streams.streams.dom());
    }
    lemma_items_respect_windows(
        ConnView { pending_sends: Seq::empty(), ..c },
        out,
        c.pending_sends,
    );
}

/// A partial send loses nothing: what is written and what stays queued make up the data,
/// and the end of the stream stays with what is queued.
pub proof fn lemma_partial_send_loses_nothing(c: ConnView, out: WriterView, p: PendingView)
    requires
        c.send_tried(out, p).outcome is Queued,
    ensures
        ({
            let step = c.send_tried(out, p);
            let q = step.outcome->Queued_0;
            let n = p.data.len() - q.data.len();
            &&& 0 <= n < p.data.len()
            &&& p.data == p.data.take(n) + q.data
            &&& q == (PendingView { data: q.data, ..p })
            &&& step.out == if n == 0 {
                out
            } else {
                out.data_frames(
                    split::data_frames(
                        p.stream_id,
                        p.data.take(n),
                        false,
                        c.settings.remote.max_frame_size as nat,
                    ),
                )
            }
        }),
{
    reveal(ConnView::send_tried);
    reveal(ConnView::data_sent);
    let step = c.send_tried(out, p);
    let q = step.outcome->Queued_0;
    let n = p.data.len() - q.data.len();
    assert(p.data =~= p.data.take(n) + q.data);
}

/// A failure of one stream does not end the connection: the stream is reset, which the
/// peer is told, and nothing else changes.
pub proof fn lemma_stream_error_is_contained(
    c: ConnView,
    out: WriterView,
    f: FrameView,
    decoded: Result<Seq<FieldView>, ErrorView>,
    now: u128,
)
    ensures
        !(c.frame_received(out, f, decoded, now).result matches Err(ErrorView::StreamError { .. })),
        c.frame_processed(out, f, decoded, now).result matches Err(
            ErrorView::StreamError { stream_id, reason, .. },
        ) ==> (stream_id <= frame::MAX_31_BIT ==> {
            let failed = c.frame_processed(out, f, decoded, now);
            let step = c.frame_received(out, f, decoded, now);
            &&& step.result is Ok
            &&& step.out == failed.out.frame(connection::rst_bytes(stream_id, reason))
            &&& step.conn.streams.has(stream_id) == failed.conn.streams.has(stream_id)
            &&& step.conn.streams.has(stream_id)
                ==> step.conn.streams.streams[stream_id].state is Closed
            &&& forall|id: u32|
                id != stream_id ==> step.conn.streams.has(id) == failed.conn.streams.has(id)
                    && step.conn.streams.streams[id] == failed.conn.streams.streams[id]
            &&& step.conn == (ConnView {
                streams: step.conn.streams,
                events: step.conn.events,
                ..failed.conn
            })
        }),
{
    reveal(ConnView::frame_received);
}

proof fn lemma_frame_error_reasons(
    c: ConnView,
    out: WriterView,
    f: FrameView,
    decoded: Result<Seq<FieldView>, ErrorView>,
    now: u128,
)
    ensures
        c.frame_processed(out, f, decoded, now).result matches Err(e) ==> e.reason() is Some
            || decoded == Err::<Seq<FieldView>, ErrorView>(e),
{
    reveal(ConnView::frame_processed);
    match f {
        FrameView::Data(_) => {
            reveal(ConnView::data_received);
        },
        FrameView::Headers(_) => {
            reveal(ConnView::headers_received);
        },
        FrameView::RstStream(_) => {
            reveal(ConnView::reset_received);
        },
        FrameView::Settings(_) => {
            reveal(ConnView::settings_received);
        },
        FrameView::Ping(_) => {
            reveal(ConnView::ping_received);
        },
        FrameView::WindowUpdate(_) => {
            reveal(ConnView::window_update_received);
        },
        _ => {},
    }
}

/// Whatever ends the connection while a message is handled has a reason code, so that the
/// peer is told with GOAWAY.
pub proof fn lemma_failures_have_reasons(
    c: ConnView,
    out: WriterView,
    msg: MsgView,
    decoded: Result<Seq<FieldView>, ErrorView>,
    now: u128,
)
    requires
        !(decoded matches Err(ErrorView::Io(_))),
    ensures
        c.message_received(out, msg, decoded, now).next matches Err(e) ==> e.reason() is Some,
{
    reveal(ConnView::message_received);
    reveal(ConnView::frame_received);
    if let MsgView::Frame(f) = msg {
        lemma_frame_error_reasons(c, out, f, decoded, now);
    }
}

/// When the connection fails and was not going away yet, GOAWAY with the reason and the
/// last stream of the peer is the last thing that goes out; when it was, no further
/// GOAWAY is sent.
pub proof fn lemma_failure_is_announced(
    handled: nat,
    c: ConnView,
    out: WriterView,
    msg: MsgView,
    decoded: Result<Seq<FieldView>, ErrorView>,
    now: u128,
    gone: Seq<Ticket>,
)
    requires
        !(decoded matches Err(ErrorView::Io(_))),
        c.message_received(out, msg, decoded, now).next is Err,
    ensures
        ({
            let step = c.message_received(out, msg, decoded, now);
            let e = step.next->Err_0;
            let turn = event_loop::message_taken(handled, c, out, msg, decoded, now, gone);
            &&& turn.action == (event_loop::ActionView::Failed { error: e, shut_down: true })
            &&& turn.out == (if step.conn.going_away {
                step.out
            } else {
                step.out.frame(
                    GoAwayView::new(step.conn.last_peer_stream_id, e.reason()->0).bytes(),
                )
            }).flush()
        }),
{
    lemma_failures_have_reasons(c, out, msg, decoded, now);
}

/// The stream that a frame is about, where it is about one.
pub open spec fn stream_of(f: FrameView) -> Option<u32> {
    match f {
        FrameView::Data(d) => Some(d.stream_id),
        FrameView::Headers(h) => Some(h.stream_id),
        FrameView::RstStream(r) => Some(r.stream_id),
        FrameView::WindowUpdate(w) => Some(w.stream_id),
        _ => None,
    }
}

/// Whether a step on the stream `id` leaves the stream `other` as it was, and fails no stream
/// but `id`.
spec fn leaves_alone(a: ConnView, step: Step, id: u32, other: u32) -> bool {
    &&& step.conn.streams.has(other) == a.streams.has(other)
    &&& step.conn.streams.streams[other] == a.streams.streams[other]
    &&& step.result matches Err(ErrorView::StreamError { stream_id, .. }) ==> stream_id == id
}

proof fn lemma_data_is_isolated(c: ConnView, out: WriterView, d: DataView, other: u32)
    requires
        other != d.stream_id,
    ensures
        leaves_alone(c, c.data_received(out, d), d.stream_id, other),
{
    reveal(ConnView::data_received);
}

proof fn lemma_headers_are_isolated(
    c: ConnView,
    out: WriterView,
    h: frame::headers::HeadersView,
    decoded: Result<Seq<FieldView>, ErrorView>,
    other: u32,
)
    requires
        other != h.stream_id,
        !(decoded matches Err(ErrorView::StreamError { .. })),
    ensures
        leaves_alone(c, c.headers_received(out, h, decoded), h.stream_id, other),
{
    reveal(ConnView::headers_received);
}

proof fn lemma_reset_is_isolated(
    c: ConnView,
    out: WriterView,
    r: RstStreamView,
    now: u128,
    other: u32,
)
    requires
        other != r.stream_id,
    ensures
        leaves_alone(c, c.reset_received(r, now).with(out), r.stream_id, other),
{
    reveal(ConnView::reset_received);
}

proof fn lemma_update_is_isolated(c: ConnView, out: WriterView, w: WindowUpdateView, other: u32)
    requires
        other != w.stream_id,
    ensures
        leaves_alone(c, c.window_update_received(w).with(out), w.stream_id, other),
{
    reveal(ConnView::window_update_received);
}

/// A frame about one stream leaves all other streams as they were, whatever comes of it.
pub proof fn lemma_streams_are_isolated(
    c: ConnView,
    out: WriterView,
    f: FrameView,
    decoded: Result<Seq<FieldView>, ErrorView>,
    now: u128,
    other: u32,
)
    requires
        stream_of(f) is Some,
        stream_of(f)->0 <= frame::MAX_31_BIT,
        other != stream_of(f)->0,
        !(decoded matches Err(ErrorView::StreamError { .. })),
    ensures
        ({
            let after = c.frame_received(out, f, decoded, now).conn;
            &&& after.streams.has(other) == c.streams.has(other)
            &&& after.streams.streams[other] == c.streams.streams[other]
        }),
{
    reveal(ConnView::frame_received);
    reveal(ConnView::frame_processed);
    match f {
        FrameView::Data(d) => lemma_data_is_isolated(c, out, d, other),
        FrameView::Headers(h) => lemma_headers_are_isolated(c, out, h, decoded, other),
        FrameView::RstStream(r) => lemma_reset_is_isolated(c, out, r, now, other),
        FrameView::WindowUpdate(w) => lemma_update_is_isolated(c, out, w, other),
        _ => {},
    }
}

pub(crate) proof fn lemma_abandoned(c: ConnView, n: int, f: GoAwayView)
    requires
        c.streams.wf(),
        0 <= n <= c.streams.ids.len(),
    ensures
        ({
            let after = c.streams_abandoned(n, f);
            &&& after.streams.ids == c.streams.ids
            &&& after.streams.streams.dom() == c.streams.streams.dom()
            &&& forall|i: int|
                #![trigger c.streams.ids[i]]
                0 <= i < c.streams.ids.len() ==> {
                    let id = c.streams.ids[i];
                    if i < n && id > f.last_stream_id {
                        after.streams.streams[id].state is Closed
                            && after.streams.streams[id].was_reset
                    } else {
                        after.streams.streams[id] == c.streams.streams[id]
                    }
                }
            &&& after == (ConnView { streams: after.streams, events: after.events, ..c })
            &&& after.streams == (StoreView { streams: after.streams.streams, ..c.streams })
        }),
    decreases n,
{
    if n > 0 {
        lemma_abandoned(c, n - 1, f);
        let before = c.streams_abandoned(n - 1, f);
        let id = c.streams.ids[n - 1];
        assert(c.streams.ids.contains(id));
        assert(c.streams.has(id));
        let after = c.streams_abandoned(n, f);
        assert forall|i: int|
            #![trigger c.streams.ids[i]]
            0 <= i < c.streams.ids.len() implies {
            let id = c.streams.ids[i];
            if i < n && id > f.last_stream_id {
                after.streams.streams[id].state is Closed && after.streams.streams[id].was_reset
            } else {
                after.streams.streams[id] == c.streams.streams[id]
            }
        } by {
            if i != n - 1 {
                assert(c.streams.ids[i] != id);
            }
        }
        assert(after.streams.streams.dom() =~= c.streams.streams.dom());
    }
}

/// GOAWAY closes exactly the streams that the peer will not process: those above the last
/// one that it names. All others stay as they were, and no waiter for a new stream is left.
pub proof fn lemma_goaway_closes_higher_streams(c: ConnView, f: GoAwayView, id: u32)
    requires
        c.streams.wf(),
        c.streams.has(id),
    ensures
        ({
            let after = c.goaway_received(f);
            &&& after.going_away
            &&& after.ready_waiters.len() == 0
            &&& after.streams.has(id)
            &&& if id > f.last_stream_id {
                after.streams.streams[id].state is Closed
            } else {
                after.streams.streams[id] == c.streams.streams[id]
            }
        }),
{
    reveal(ConnView::goaway_received);
    let start = ConnView { going_away: true, ..c };
    lemma_abandoned(start, start.streams.ids.len() as int, f);
    let i = c.streams.ids.index_of(id);
    assert(c.streams.ids.contains(id));
    assert(c.streams.ids[i] == id);
}

pub(crate) proof fn lemma_resized(store: StoreView, n: int, size: i32, dir: Direction)
    requires
        store.wf(),
        0 <= n <= store.ids.len(),
        store.first_resized(n, size, dir).1,
    ensures
        ({
            let after = store.first_resized(n, size, dir).0;
            &&& after == (StoreView { streams: after.streams, ..store })
            &&& after.streams.dom() == store.streams.dom()
            &&& forall|i: int|
                #![trigger store.ids[i]]
                0 <= i < store.ids.len() ==> {
                    let id = store.ids[i];
                    if i < n {
                        Some(after.streams[id]) == store.streams[id].resized(size, dir)
                    } else {
                        after.streams[id] == store.streams[id]
                    }
                }
        }),
    decreases n,
{
    if n > 0 {
        lemma_resized(store, n - 1, size, dir);
        let id = store.ids[n - 1];
        assert(store.ids.contains(id));
        assert(store.has(id));
        let after = store.first_resized(n, size, dir).0;
        assert forall|i: int| #![trigger store.ids[i]] 0 <= i < store.ids.len() implies {
            let id = store.ids[i];
            if i < n {
                Some(after.streams[id]) == store.streams[id].resized(size, dir)
            } else {
                after.streams[id] == store.streams[id]
            }
        } by {
            if i != n - 1 {
                assert(store.ids[i] != id);
            }
        }
        assert(after.streams.dom() =~= store.streams.dom());
    }
}

/// A new initial size moves the window of every stream that is not closed by the
/// difference to the one that the window had, and leaves closed streams alone.
pub(crate) proof fn lemma_resize_moves_windows(
    store: StoreView,
    size: i32,
    dir: Direction,
    id: u32,
)
    requires
        store.wf(),
        store.has(id),
        store.resized(size, dir).1,
    ensures
        ({
            let after = store.resized(size, dir).0;
            let s = store.streams[id];
            let t = after.streams[id];
            &&& after.has(id)
            &&& s.state is Closed ==> t == s
            &&& !(s.state is Closed) && dir == Direction::Send ==> {
                &&& t.send_flow.window - s.send_flow.window == size - s.send_flow.initial
                &&& t.send_flow.initial == size
                &&& t == (Stream { send_flow: t.send_flow, ..s })
            }
            &&& !(s.state is Closed) && dir == Direction::Recv ==> {
                &&& t.recv_flow.window - s.recv_flow.window == size - s.recv_flow.initial
                &&& t.recv_flow.initial == size
                &&& t == (Stream { recv_flow: t.recv_flow, ..s })
            }
        }),
{
    lemma_resized(store, store.ids.len() as int, size, dir);
    let i = store.ids.index_of(id);
    assert(store.ids.contains(id));
    assert(store.ids[i] == id);
}

/// A peer that has reset as many streams within the window as it may, and resets one more,
/// ends the connection with ENHANCE_YOUR_CALM; one that has reset fewer does not.
pub proof fn lemma_rapid_resets_end_the_connection(c: ConnView, f: RstStreamView, now: u128)
    requires
        c.streams.has(f.stream_id),
    ensures
        ({
            let recent = c.streams.resets.filter(|t: u128| now - t <= c.streams.reset_window);
            c.reset_received(f, now).result == if recent.len() >= c.streams.max_resets {
                Err::<(), ErrorView>(ErrorView::connection(Reason::EnhanceYourCalm))
            } else {
                Ok::<(), ErrorView>(())
            }
        }),
{
    reveal(ConnView::reset_received);
}

/// No stream is opened on a connection that is going away: neither a request of ours nor
/// one of the peer, which is refused.
pub proof fn lemma_no_stream_while_going_away(
    c: ConnView,
    out: WriterView,
    id: u32,
    end_stream: bool,
    fields: Seq<FieldView>,
)
    requires
        c.going_away,
    ensures
        c.stream_requested() == NewStream::Refused(ErrorView::connection(Reason::RefusedStream)),
        c.server_request(out, id, end_stream, fields).conn == c,
        id % 2 == 1 && id > c.last_peer_stream_id ==> c.server_request(
            out,
            id,
            end_stream,
            fields,
        ) == c.done(out.frame(connection::rst_bytes(id, Reason::RefusedStream))),
{
}

/// Requests are accepted on odd streams only, each above all before it.
pub proof fn lemma_accepted_streams_increase(
    c: ConnView,
    out: WriterView,
    id: u32,
    end_stream: bool,
    fields: Seq<FieldView>,
)
    requires
        !c.streams.has(id),
        c.server_request(out, id, end_stream, fields).conn.streams.has(id),
    ensures
        id % 2 == 1,
        id > c.last_peer_stream_id,
        c.server_request(out, id, end_stream, fields).conn.last_peer_stream_id == id,
        !c.server_request(out, id, end_stream, fields).conn.idle_peer(id),
{
}

/// Whether the identifiers of this end's streams are below the next one that it gives out.
pub open spec fn own_ids_used(store: StoreView) -> bool {
    forall|id: u32| #[trigger]
        store.has(id) && id % 2 == store.next_id % 2 ==> id < store.next_id
}

/// What only ever goes one way: a connection that is going away stays so, the last stream
/// of the peer only grows, what was told is not taken back, and a stream that is closed
/// stays closed as long as it is known.
pub open spec fn evolves(a: ConnView, b: ConnView) -> bool {
    &&& a.going_away ==> b.going_away
    &&& a.last_peer_stream_id <= b.last_peer_stream_id
    &&& a.is_client == b.is_client
    &&& a.max_send_buffer_size == b.max_send_buffer_size
    &&& a.events.len() <= b.events.len()
    &&& forall|i: int| 0 <= i < a.events.len() ==> #[trigger] b.events[i] == a.events[i]
    &&& forall|id: u32|
        a.streams.has(id) && a.streams.streams[id].state is Closed && b.streams.has(id)
            ==> (#[trigger] b.streams.streams[id]).state is Closed
}

proof fn lemma_evolves_on(a: ConnView, b: ConnView, c: ConnView)
    requires
        evolves(a, b),
        evolves(b, c),
        forall|id: u32|
            a.streams.has(id) && c.streams.has(id) ==> #[trigger] b.streams.has(id),
    ensures
        evolves(a, c),
{
    assert forall|id: u32|
        a.streams.has(id) && a.streams.streams[id].state is Closed && c.streams.has(id) implies (
    #[trigger] c.streams.streams[id]).state is Closed by {
        assert(b.streams.has(id));
        assert(b.streams.streams[id].state is Closed);
    }
    assert forall|i: int| 0 <= i < a.events.len() implies #[trigger] c.events[i] == a.events[i] by {
        assert(b.events[i] == a.events[i]);
    }
}

pub(crate) proof fn lemma_abandoned_evolves(c: ConnView, n: int, f: GoAwayView)
    requires
        c.streams.wf(),
        0 <= n <= c.streams.ids.len(),
    ensures
        evolves(c, c.streams_abandoned(n, f)),
        c.streams_abandoned(n, f).streams.streams.dom() == c.streams.streams.dom(),
        c.streams_abandoned(n, f).streams.ids == c.streams.ids,
    decreases n,
{
    if n > 0 {
        lemma_abandoned_evolves(c, n - 1, f);
        let b = c.streams_abandoned(n - 1, f);
        let id = c.streams.ids[n - 1];
        assert(c.streams.ids.contains(id));
        assert(c.streams.has(id));
        assert(b.stream_abandoned(id, f).streams.streams.dom() =~= b.streams.streams.dom());
        assert(evolves(b, b.stream_abandoned(id, f)));
        lemma_evolves_on(c, b, b.stream_abandoned(id, f));
    }
}

pub(crate) proof fn lemma_failed_evolves(c: ConnView, n: int, reason: Reason)
    requires
        c.streams.wf(),
        0 <= n <= c.streams.ids.len(),
    ensures
        evolves(c, c.streams_failed(n, reason)),
        c.streams_failed(n, reason).streams.streams.dom() == c.streams.streams.dom(),
        c.streams_failed(n, reason).streams.ids == c.streams.ids,
        ({
            let after = c.streams_failed(n, reason);
            &&& after == (ConnView { streams: after.streams, events: after.events, ..c })
            &&& after.streams == (StoreView { streams: after.streams.streams, ..c.streams })
        }),
    decreases n,
{
    if n > 0 {
        lemma_failed_evolves(c, n - 1, reason);
        let b = c.streams_failed(n - 1, reason);
        let id = c.streams.ids[n - 1];
        assert(c.streams.ids.contains(id));
        assert(c.streams.has(id));
        assert(b.stream_failed(id, reason).streams.streams.dom() =~= b.streams.streams.dom());
        assert(evolves(b, b.stream_failed(id, reason)));
        lemma_evolves_on(c, b, b.stream_failed(id, reason));
    }
}

proof fn lemma_resize_keeps_states(store: StoreView, n: int, size: i32, dir: Direction)
    requires
        store.wf(),
        0 <= n <= store.ids.len(),
    ensures
        ({
            let after = store.first_resized(n, size, dir).0;
            &&& after == (StoreView { streams: after.streams, ..store })
            &&& after.streams.dom() == store.streams.dom()
            &&& forall|id: u32|
                store.has(id) ==> (#[trigger] after.streams[id]).state == store.streams[id].state
        }),
    decreases n,
{
    if n > 0 {
        lemma_resize_keeps_states(store, n - 1, size, dir);
        let id = store.ids[n - 1];
        assert(store.ids.contains(id));
        assert(store.has(id));
        let before = store.first_resized(n - 1, size, dir).0;
        let after = store.first_resized(n, size, dir).0;
        assert(after.streams.dom() =~= store.streams.dom());
        assert forall|j: u32| store.has(j) implies (#[trigger] after.streams[j]).state
            == store.streams[j].state by {
            assert(before.streams[j].state == store.streams[j].state);
        }
    }
}

proof fn lemma_data_evolves(c: ConnView, out: WriterView, d: DataView)
    ensures
        evolves(c, c.data_received(out, d).conn),
        c.data_received(out, d).conn.streams.streams.dom() =~= c.streams.streams.dom(),
{
    reveal(ConnView::data_received);
}

proof fn lemma_headers_evolve(
    c: ConnView,
    out: WriterView,
    h: frame::headers::HeadersView,
    decoded: Result<Seq<FieldView>, ErrorView>,
)
    ensures
        evolves(c, c.headers_received(out, h, decoded).conn),
{
    reveal(ConnView::headers_received);
}

proof fn lemma_frame_evolves(
    c: ConnView,
    out: WriterView,
    f: FrameView,
    decoded: Result<Seq<FieldView>, ErrorView>,
    now: u128,
)
    requires
        c.streams.wf(),
    ensures
        evolves(c, c.frame_processed(out, f, decoded, now).conn),
{
    reveal(ConnView::frame_processed);
    match f {
        FrameView::Data(d) => lemma_data_evolves(c, out, d),
        FrameView::Headers(h) => lemma_headers_evolve(c, out, h, decoded),
        FrameView::RstStream(r) => {
            reveal(ConnView::reset_received);
        },
        FrameView::Settings(s) => {
            reveal(ConnView::settings_received);
            let store = match s.max_concurrent_streams {
                Some(max) if c.is_client => StoreView { max_concurrent: max, ..c.streams },
                _ => c.streams,
            };
            if let Some(size) = s.initial_window_size {
                lemma_resize_keeps_states(
                    store,
                    store.ids.len() as int,
                    flow_control::signed(size),
                    Direction::Send,
                );
            }
        },
        FrameView::Ping(p) => {
            reveal(ConnView::ping_received);
        },
        FrameView::GoAway(g) => {
            reveal(ConnView::goaway_received);
            lemma_abandoned_evolves(
                ConnView { going_away: true, ..c },
                c.streams.ids.len() as int,
                g,
            );
        },
        FrameView::WindowUpdate(w) => {
            reveal(ConnView::window_update_received);
        },
        _ => {},
    }
}

proof fn lemma_send_evolves(c: ConnView, out: WriterView, p: PendingView)
    ensures
        evolves(c, c.send_requested(out, p).conn),
{
    reveal(ConnView::send_tried);
    reveal(ConnView::data_sent);
}

proof fn lemma_command_evolves(c: ConnView, out: WriterView, cmd: CommandView)
    requires
        c.streams.wf(),
        own_ids_used(c.streams),
    ensures
        evolves(c, c.command_received(out, cmd).conn),
{
    reveal(ConnView::command_received);
    match cmd {
        CommandView::SendData { stream_id, data, end_stream, response_tx } => {
            lemma_send_evolves(c, out, PendingView { stream_id, data, end_stream, response_tx });
        },
        CommandView::AbruptShutdown { reason, .. } => {
            lemma_failed_evolves(c, c.streams.ids.len() as int, reason);
        },
        CommandView::SetInitialWindowSize { size, .. } => {
            if size <= frame::MAX_31_BIT {
                lemma_resize_keeps_states(
                    c.streams,
                    c.streams.ids.len() as int,
                    size as i32,
                    Direction::Recv,
                );
            }
        },
        _ => {},
    }
}

/// A message never takes back what happened: a connection that is going away stays so, the
/// last stream of the peer only grows, what was told stays told, and no closed stream opens
/// again.
pub proof fn lemma_messages_take_nothing_back(
    c: ConnView,
    out: WriterView,
    msg: MsgView,
    decoded: Result<Seq<FieldView>, ErrorView>,
    now: u128,
)
    requires
        c.streams.wf(),
        own_ids_used(c.streams),
    ensures
        evolves(c, c.message_received(out, msg, decoded, now).conn),
{
    reveal(ConnView::message_received);
    match msg {
        MsgView::Frame(f) => {
            reveal(ConnView::frame_received);
            lemma_frame_evolves(c, out, f, decoded, now);
            let step = c.frame_processed(out, f, decoded, now);
            if let Err(ErrorView::StreamError { stream_id, .. }) = step.result {
                let id = (stream_id % 0x8000_0000) as u32;
                assert(evolves(step.conn, step.conn.stream_closed(id)));
                lemma_evolves_on(c, step.conn, step.conn.stream_closed(id));
            }
        },
        MsgView::Cmd(cmd) => lemma_command_evolves(c, out, cmd),
        _ => {},
    }
}

/// Sending headers that were compressed does not open a closed stream either.
pub proof fn lemma_headers_open_no_closed_stream(
    c: ConnView,
    out: WriterView,
    job: JobView,
    block: Seq<u8>,
)
    ensures
        evolves(c, c.headers_encoded(out, job, block).conn),
        c.streams.has(job.stream_id) && c.streams.streams[job.stream_id].state is Closed
            ==> c.headers_encoded(out, job, block).out == out,
{
}

proof fn lemma_count_same(ids: Seq<u32>, a: Map<u32, Stream>, b: Map<u32, Stream>)
    requires
        forall|i: int|
            0 <= i < ids.len() ==> (a[#[trigger] ids[i]].state is Closed ==> b[ids[i]].state
                is Closed),
    ensures
        streams::count_open(ids, b) <= streams::count_open(ids, a),
    decreases ids.len(),
{
    if ids.len() > 0 {
        let t = ids.drop_last();
        assert(forall|i: int| 0 <= i < t.len() ==> t[i] == ids[i]);
        assert(a[ids[ids.len() - 1]].state is Closed ==> b[ids[ids.len() - 1]].state is Closed);
        lemma_count_same(t, a, b);
    }
}

/// Opening one more stream raises the number of open streams by one at most.
proof fn lemma_insert_counts(store: StoreView, id: u32, s: Stream)
    requires
        store.wf(),
        !store.has(id),
    ensures
        store.inserted(id, s).active() <= store.active() + 1,
{
    let after = store.inserted(id, s);
    assert(after.ids.drop_last() =~= store.ids);
    assert(!store.ids.contains(id));
    assert forall|i: int|
        0 <= i < store.ids.len() && store.streams[#[trigger] store.ids[i]].state
            is Closed implies after.streams[store.ids[i]].state is Closed by {
        assert(store.ids.contains(store.ids[i]));
    }
    lemma_count_same(store.ids, store.streams, after.streams);
}

/// The limit on streams that are open at once is never exceeded by opening one: neither by
/// a request of the peer, which is refused then, nor by one of ours.
pub proof fn lemma_stream_limit_holds(
    c: ConnView,
    out: WriterView,
    id: u32,
    end_stream: bool,
    fields: Seq<FieldView>,
)
    requires
        c.streams.wf(),
        !c.streams.has(id),
        own_ids_used(c.streams),
        c.streams.active() <= c.streams.max_concurrent,
    ensures
        c.server_request(out, id, end_stream, fields).conn.streams.active()
            <= c.streams.max_concurrent,
        c.stream_requested() matches NewStream::Opened(after, _) ==> after.streams.active()
            <= c.streams.max_concurrent,
        !c.streams.can_accept() ==> c.server_request(
            out,
            id,
            end_stream,
            fields,
        ).conn.streams == c.streams && c.stream_requested() is Refused,
{
    let next = c.request_accepted(id, end_stream, fields);
    let s = next.streams.streams[id];
    lemma_insert_counts(c.streams, id, s);
    assert(next.streams.ids == c.streams.inserted(id, s).ids);
    assert(next.streams.streams =~= c.streams.inserted(id, s).streams);
    let closed = next.recv_closed(id);
    lemma_count_same(next.streams.ids, next.streams.streams, closed.streams.streams);
    if let NewStream::Opened(after, own) = c.stream_requested() {
        let t = after.streams.streams[own];
        lemma_insert_counts(c.streams, own, t);
        assert(after.streams.streams =~= c.streams.inserted(own, t).streams);
    }
}

/// The data of a stream that the application was told of, in order.
pub open spec fn data_told(events: Seq<EventView>, id: u32) -> Seq<u8>
    decreases events.len(),
{
    if events.len() == 0 {
        Seq::empty()
    } else {
        let before = data_told(events.drop_last(), id);
        match events.last() {
            EventView::Data { stream_id, data } => if stream_id == id {
                before + data
            } else {
                before
            },
            _ => before,
        }
    }
}

proof fn lemma_told_push(events: Seq<EventView>, e: EventView, id: u32)
    ensures
        data_told(events.push(e), id) == match e {
            EventView::Data { stream_id, data } => if stream_id == id {
                data_told(events, id) + data
            } else {
                data_told(events, id)
            },
            _ => data_told(events, id),
        },
{
    assert(events.push(e).drop_last() =~= events);
}

/// DATA frames come in one after the other, up to the first that fails.
pub open spec fn data_frames_received(c: ConnView, out: WriterView, frames: Seq<DataView>) -> Step
    decreases frames.len(),
{
    if frames.len() == 0 {
        c.done(out)
    } else {
        let step = c.data_received(out, frames[0]);
        if step.result is Err {
            step
        } else {
            data_frames_received(step.conn, step.out, frames.drop_first())
        }
    }
}

/// Whether a connection takes `n` more bytes on a stream: the stream is open for them,
/// both windows and all counters hold them, and they fit what was announced.
pub open spec fn takes(c: ConnView, id: u32, n: nat, end_stream: bool) -> bool {
    let s = c.streams.streams[id];
    &&& c.streams.has(id)
    &&& s.state.spec_can_recv()
    &&& s.recv_open
    &&& n <= c.conn_recv_flow.spec_available()
    &&& n <= s.recv_flow.spec_available()
    &&& recv_credit(c) <= frame::MAX_31_BIT
    &&& s.received_data_bytes + n <= u64::MAX
    &&& s.expected_content_length matches Some(len) ==> s.received_data_bytes + n <= len && (
    end_stream ==> s.received_data_bytes + n == len)
}

proof fn lemma_frame_arrives(c: ConnView, out: WriterView, d: DataView, total: nat, end: bool)
    requires
        takes(c, d.stream_id, total, end),
        d.payload.len() <= total,
        d.padding == 0,
        d.end_stream() ==> end && d.payload.len() == total,
    ensures
        ({
            let step = c.data_received(out, d);
            &&& step.result is Ok
            &&& step.out == out
            &&& data_told(step.conn.events, d.stream_id) == data_told(c.events, d.stream_id)
                + d.payload
            &&& !d.end_stream() ==> takes(
                step.conn,
                d.stream_id,
                (total - d.payload.len()) as nat,
                end,
            )
            &&& d.end_stream() ==> !step.conn.streams.streams[d.stream_id].recv_open
        }),
{
    reveal(ConnView::data_received);
    let id = d.stream_id;
    let told = EventView::Data { stream_id: id, data: d.payload };
    lemma_told_push(c.events, told, id);
    lemma_told_push(c.events.push(told), EventView::RecvClosed { stream_id: id }, id);
}

/// Data arrives as it was sent: what one end splits into DATA frames, the other end passes
/// on to its application, whole and in order, as long as it takes that much. If the stream
/// ends with the data, the application sees the end after it.
pub proof fn lemma_data_arrives_as_sent(
    c: ConnView,
    out: WriterView,
    id: u32,
    payload: Seq<u8>,
    end_stream: bool,
    max: nat,
)
    requires
        max > 0,
        takes(c, id, payload.len(), end_stream),
    ensures
        ({
            let step = data_frames_received(
                c,
                out,
                split::data_frames(id, payload, end_stream, max),
            );
            &&& step.result is Ok
            &&& step.out == out
            &&& data_told(step.conn.events, id) == data_told(c.events, id) + payload
            &&& end_stream ==> !step.conn.streams.streams[id].recv_open
        }),
    decreases payload.len(),
{
    let frames = split::data_frames(id, payload, end_stream, max);
    split::lemma_data_split(id, payload, end_stream, max);
    let d = frames[0];
    let step = c.data_received(out, d);
    if payload.len() <= max {
        lemma_frame_arrives(c, out, d, payload.len(), end_stream);
        assert(frames.drop_first().len() == 0);
        reveal_with_fuel(data_frames_received, 2);
    } else {
        let rest = payload.skip(max as int);
        split::lemma_data_split(id, rest, end_stream, max);
        assert(frames.len() == 1 + split::data_frames(id, rest, end_stream, max).len());
        lemma_frame_arrives(c, out, d, payload.len(), end_stream);
        assert(frames.drop_first() =~= split::data_frames(id, rest, end_stream, max));
        lemma_data_arrives_as_sent(step.conn, step.out, id, rest, end_stream, max);
        assert(d.payload + rest =~= payload);
        assert(data_told(c.events, id) + d.payload + rest =~= data_told(c.events, id) + payload);
    }
}

/// Send capacity is granted only as far as it was asked for and both windows hold it.
pub proof fn lemma_grants_are_covered(c: ConnView, id: u32, amount: u32)
    ensures
        c.capacity_answer(id, amount) matches CapacityAnswer::Grant(n) ==> {
            &&& 0 < n <= amount
            &&& n <= c.conn_send_flow.spec_available()
            &&& n <= c.streams.streams[id].send_flow.spec_available()
            &&& c.streams.streams[id].state.spec_can_send()
        },
{
}

/// A batch holds no more than [`BATCH_LIMIT`](event_loop::BATCH_LIMIT) messages: the last
/// one that fits is followed by a flush.
pub proof fn lemma_batches_are_bounded(
    handled: nat,
    c: ConnView,
    out: WriterView,
    gone: Seq<Ticket>,
)
    requires
        handled < event_loop::BATCH_LIMIT,
    ensures
        event_loop::message_handled(handled, c, out, gone).handled < event_loop::BATCH_LIMIT,
        handled + 1 == event_loop::BATCH_LIMIT ==> event_loop::message_handled(
            handled,
            c,
            out,
            gone,
        ) == event_loop::batch_ended(c, out, gone),
{
}

/// Whether every stream is closed.
pub open spec fn all_closed(store: StoreView) -> bool {
    forall|id: u32| store.has(id) ==> (#[trigger] store.streams[id]).state is Closed
}

proof fn lemma_none_open(ids: Seq<u32>, m: Map<u32, Stream>)
    requires
        forall|i: int| 0 <= i < ids.len() ==> m[#[trigger] ids[i]].state is Closed,
    ensures
        streams::count_open(ids, m) == 0,
    decreases ids.len(),
{
    if ids.len() > 0 {
        let t = ids.drop_last();
        assert(forall|i: int| 0 <= i < t.len() ==> t[i] == ids[i]);
        assert(m[ids[ids.len() - 1]].state is Closed);
        lemma_none_open(t, m);
    }
}

proof fn lemma_failed_are_closed(c: ConnView, n: int, reason: Reason)
    requires
        c.streams.wf(),
        0 <= n <= c.streams.ids.len(),
    ensures
        ({
            let after = c.streams_failed(n, reason);
            &&& after.streams.ids == c.streams.ids
            &&& after.streams.streams.dom() == c.streams.streams.dom()
            &&& forall|i: int|
                0 <= i < n ==> after.streams.streams[#[trigger] c.streams.ids[i]].state is Closed
            &&& forall|i: int|
                0 <= i < c.streams.ids.len() ==> {
                    let s = c.streams.streams[#[trigger] c.streams.ids[i]];
                    let t = after.streams.streams[c.streams.ids[i]];
                    &&& s.was_reset ==> t.was_reset
                    &&& i < n && !(s.state is Closed) ==> t.was_reset
                    &&& i >= n ==> t == s
                }
        }),
    decreases n,
{
    if n > 0 {
        lemma_failed_are_closed(c, n - 1, reason);
        lemma_failed_evolves(c, n, reason);
        let before = c.streams_failed(n - 1, reason);
        let after = c.streams_failed(n, reason);
        let id = c.streams.ids[n - 1];
        assert(c.streams.ids.contains(id));
        assert(c.streams.has(id));
        assert forall|i: int| 0 <= i < n implies after.streams.streams[
            #[trigger] c.streams.ids[i]
        ].state is Closed by {
            if i < n - 1 {
                assert(c.streams.ids[i] != id);
                assert(before.streams.streams[c.streams.ids[i]].state is Closed);
            }
        }
        assert forall|i: int| 0 <= i < c.streams.ids.len() implies {
            let s = c.streams.streams[#[trigger] c.streams.ids[i]];
            let t = after.streams.streams[c.streams.ids[i]];
            &&& s.was_reset ==> t.was_reset
            &&& i < n && !(s.state is Closed) ==> t.was_reset
            &&& i >= n ==> t == s
        } by {
            if i != n - 1 {
                assert(c.streams.ids[i] != id);
            }
        }
    }
}

/// An abrupt shutdown closes every stream, and no stream is active afterwards.
pub proof fn lemma_shutdown_closes_every_stream(c: ConnView, out: WriterView, reason: Reason)
    requires
        c.streams.wf(),
    ensures
        c.shut_down(out, reason).conn.going_away,
        all_closed(c.shut_down(out, reason).conn.streams),
        c.shut_down(out, reason).conn.streams.active() == 0,
{
    let n = c.streams.ids.len() as int;
    lemma_failed_are_closed(c, n, reason);
    let after = c.streams_failed(n, reason);
    assert forall|id: u32| after.streams.has(id) implies (
    #[trigger] after.streams.streams[id]).state is Closed by {
        assert(c.streams.has(id));
        assert(c.streams.ids.contains(id));
        let i = c.streams.ids.index_of(id);
        assert(c.streams.ids[i] == id);
    }
    lemma_none_open(after.streams.ids, after.streams.streams);
}

proof fn lemma_items_keep_closed(c: ConnView, out: WriterView, items: Seq<PendingView>)
    requires
        all_closed(c.streams),
    ensures
        all_closed(c.items_sent(out, items).conn.streams),
        c.items_sent(out, items).conn.streams.ids == c.streams.ids,
        c.items_sent(out, items).conn.streams.streams.dom() == c.streams.streams.dom(),
        c.items_sent(out, items).conn.going_away == c.going_away,
    decreases items.len(),
{
    if items.len() > 0 {
        let step = c.send_tried(out, items[0]);
        assert(all_closed(step.conn.streams) && step.conn.streams.ids == c.streams.ids
            && step.conn.streams.streams.dom() =~= c.streams.streams.dom()
            && step.conn.going_away == c.going_away) by {
            reveal(ConnView::send_tried);
            reveal(ConnView::data_sent);
        }
        lemma_items_keep_closed(step.conn, step.out, items.drop_first());
    }
}

proof fn lemma_updates_keep_closed(c: ConnView, out: WriterView, due: Seq<u32>, n: int)
    requires
        all_closed(c.streams),
        0 <= n <= due.len(),
        forall|i: int| 0 <= i < due.len() ==> c.streams.has(#[trigger] due[i]),
    ensures
        ({
            let after = c.streams_updated(out, due, n).0;
            &&& all_closed(after.streams)
            &&& after.streams.ids == c.streams.ids
            &&& after.streams.streams.dom() == c.streams.streams.dom()
            &&& after.going_away == c.going_away
        }),
    decreases n,
{
    if n > 0 {
        lemma_updates_keep_closed(c, out, due, n - 1);
        let before = c.streams_updated(out, due, n - 1).0;
        let after = c.streams_updated(out, due, n).0;
        let id = due[n - 1];
        assert(before.streams.has(id));
        assert(after.streams.streams.dom() =~= c.streams.streams.dom());
        assert(all_closed(after.streams));
    }
}

/// Once a connection goes away and all of its streams are closed, as after an abrupt
/// shutdown, it ends with the batch.
pub proof fn lemma_idle_connection_ends(
    c: ConnView,
    out: WriterView,
    gone: Seq<Ticket>,
)
    requires
        c.streams.wf(),
        c.going_away,
        all_closed(c.streams),
    ensures
        event_loop::batch_ended(c, out, gone).action is Closed,
        event_loop::batch_ended(c, out, gone).conn.ready_waiters.len() == 0,
{
    reveal(ConnView::flushed);
    let emptied = ConnView { pending_sends: Seq::empty(), ..c };
    lemma_items_keep_closed(emptied, out, c.pending_sends);
    let (sent, out) = c.sends_flushed(out);
    let (updated, out) = sent.capacity_fulfilled(gone).connection_window_updated(out);
    lemma_due_are_known(c, updated.streams);
    let due = updated.streams.due_updates();
    lemma_updates_keep_closed(updated, out, due, due.len() as int);
    let last = updated.streams_updated(out, due, due.len() as int).0;
    let collected = last.streams.collected();
    let alive = |id: u32| !(last.streams.streams[id].state is Closed);
    assert forall|i: int| 0 <= i < collected.ids.len() implies collected.streams[
        #[trigger] collected.ids[i]
    ].state is Closed by {
        let id = collected.ids[i];
        assert(collected.ids.contains(id));
        streams::lemma_filter_contains(last.streams.ids, alive, id);
        assert(c.streams.has(id));
    }
    lemma_none_open(collected.ids, collected.streams);
}

proof fn lemma_fewer_ids(a: StoreView, b: StoreView)
    requires
        own_ids_used(a),
        b.next_id == a.next_id,
        b.streams.dom().subset_of(a.streams.dom()),
    ensures
        own_ids_used(b),
{
    assert forall|id: u32| #[trigger] b.has(id) && id % 2 == b.next_id % 2 implies id
        < b.next_id by {
        assert(a.has(id));
    }
}

proof fn lemma_frame_keeps_own_ids(
    c: ConnView,
    out: WriterView,
    f: FrameView,
    decoded: Result<Seq<FieldView>, ErrorView>,
    now: u128,
)
    requires
        c.base_wf(),
        own_ids_used(c.streams),
    ensures
        own_ids_used(c.frame_processed(out, f, decoded, now).conn.streams),
{
    reveal(ConnView::frame_processed);
    match f {
        FrameView::Data(d) => {
            lemma_data_evolves(c, out, d);
            reveal(ConnView::data_received);
            lemma_fewer_ids(c.streams, c.data_received(out, d).conn.streams);
        },
        FrameView::Headers(h) => {
            reveal(ConnView::headers_received);
            let after = c.headers_received(out, h, decoded).conn.streams;
            assert forall|id: u32| #[trigger] after.has(id) && id % 2 == after.next_id
                % 2 implies id < after.next_id by {
                assert(c.streams.has(id) || !c.is_client && id == h.stream_id && id % 2 == 1);
            }
        },
        FrameView::RstStream(r) => {
            reveal(ConnView::reset_received);
            let after = c.reset_received(r, now).conn.streams;
            assert(after.streams.dom() =~= c.streams.streams.dom());
            lemma_fewer_ids(c.streams, after);
        },
        FrameView::Settings(s) => {
            reveal(ConnView::settings_received);
            let store = match s.max_concurrent_streams {
                Some(max) if c.is_client => StoreView { max_concurrent: max, ..c.streams },
                _ => c.streams,
            };
            if let Some(size) = s.initial_window_size {
                lemma_resize_keeps_states(
                    store,
                    store.ids.len() as int,
                    flow_control::signed(size),
                    Direction::Send,
                );
            }
            lemma_fewer_ids(c.streams, c.settings_received(out, s).conn.streams);
        },
        FrameView::Ping(p) => {
            reveal(ConnView::ping_received);
        },
        FrameView::GoAway(g) => {
            reveal(ConnView::goaway_received);
            lemma_abandoned(
                ConnView { going_away: true, ..c },
                c.streams.ids.len() as int,
                g,
            );
            lemma_fewer_ids(c.streams, c.goaway_received(g).streams);
        },
        FrameView::WindowUpdate(w) => {
            reveal(ConnView::window_update_received);
            let after = c.window_update_received(w).conn.streams;
            assert(after.streams.dom() =~= c.streams.streams.dom());
            lemma_fewer_ids(c.streams, after);
        },
        _ => {},
    }
}

/// Every stream that this end opens gets a new identifier: whatever message comes in, no
/// stream of this end has one that is still to be given out, and none has at the start.
pub proof fn lemma_own_identifiers_are_new(
    c: ConnView,
    out: WriterView,
    msg: MsgView,
    decoded: Result<Seq<FieldView>, ErrorView>,
    now: u128,
    is_client: bool,
)
    requires
        c.base_wf(),
        own_ids_used(c.streams),
    ensures
        own_ids_used(StoreView::empty(is_client)),
        own_ids_used(c.message_received(out, msg, decoded, now).conn.streams),
        c.stream_requested() matches NewStream::Opened(_, id) ==> !c.streams.has(id),
{
    reveal(ConnView::message_received);
    match msg {
        MsgView::Frame(f) => {
            reveal(ConnView::frame_received);
            lemma_frame_keeps_own_ids(c, out, f, decoded, now);
            let step = c.frame_processed(out, f, decoded, now);
            if let Err(ErrorView::StreamError { stream_id, .. }) = step.result {
                let id = (stream_id % 0x8000_0000) as u32;
                let after = step.conn.stream_closed(id).streams;
                assert(after.streams.dom() =~= step.conn.streams.streams.dom());
                lemma_fewer_ids(step.conn.streams, after);
            }
        },
        MsgView::Cmd(cmd) => lemma_command_keeps_own_ids(c, out, cmd),
        MsgView::ReleaseCapacity { stream_id, amount } => {
            let after = c.message_received(out, msg, decoded, now).conn.streams;
            assert(after.streams.dom() =~= c.streams.streams.dom());
            lemma_fewer_ids(c.streams, after);
        },
        _ => {},
    }
}

proof fn lemma_command_keeps_own_ids(c: ConnView, out: WriterView, cmd: CommandView)
    requires
        c.base_wf(),
        own_ids_used(c.streams),
    ensures
        own_ids_used(c.command_received(out, cmd).conn.streams),
{
    reveal(ConnView::command_received);
    let after = c.command_received(out, cmd).conn.streams;
    match cmd {
        CommandView::NewStream { .. } => {
            if let NewStream::Opened(opened, own) = c.stream_requested() {
                assert forall|id: u32| #[trigger] after.has(id) && id % 2 == after.next_id
                    % 2 implies id < after.next_id by {
                    assert(c.streams.has(id) || id == own);
                }
            }
        },
        CommandView::SendData { .. } => {
            reveal(ConnView::send_tried);
            reveal(ConnView::data_sent);
            assert(after.streams.dom() =~= c.streams.streams.dom());
            lemma_fewer_ids(c.streams, after);
        },
        CommandView::SendReset { .. } => {
            assert(after.streams.dom() =~= c.streams.streams.dom());
            lemma_fewer_ids(c.streams, after);
        },
        CommandView::AbruptShutdown { reason, .. } => {
            lemma_failed_evolves(c, c.streams.ids.len() as int, reason);
            lemma_fewer_ids(c.streams, after);
        },
        CommandView::SetInitialWindowSize { size, .. } => {
            if size <= frame::MAX_31_BIT {
                lemma_resize_keeps_states(
                    c.streams,
                    c.streams.ids.len() as int,
                    size as i32,
                    Direction::Recv,
                );
                lemma_fewer_ids(c.streams, after);
            }
        },
        _ => {},
    }
}

pub(crate) proof fn lemma_items_evolve(c: ConnView, out: WriterView, items: Seq<PendingView>)
    ensures
        evolves(c, c.items_sent(out, items).conn),
        c.items_sent(out, items).conn.going_away == c.going_away,
        c.items_sent(out, items).conn.ready_waiters == c.ready_waiters,
        same_recv_window(c, c.items_sent(out, items).conn),
        c.items_sent(out, items).conn.streams.streams.dom() == c.streams.streams.dom(),
        c.items_sent(out, items).conn.streams.ids == c.streams.ids,
    decreases items.len(),
{
    if items.len() > 0 {
        let step = c.send_tried(out, items[0]);
        assert(evolves(c, step.conn) && step.conn.going_away == c.going_away
            && step.conn.ready_waiters == c.ready_waiters && same_recv_window(c, step.conn)
            && step.conn.streams.ids == c.streams.ids && step.conn.streams.streams.dom()
            =~= c.streams.streams.dom()) by {
            reveal(ConnView::send_tried);
            reveal(ConnView::data_sent);
        }
        lemma_items_evolve(step.conn, step.out, items.drop_first());
        lemma_evolves_on(c, step.conn, c.items_sent(out, items).conn);
    }
}

pub(crate) proof fn lemma_updates_evolve(c: ConnView, out: WriterView, due: Seq<u32>, n: int)
    requires
        0 <= n <= due.len(),
        forall|i: int| 0 <= i < due.len() ==> c.streams.has(#[trigger] due[i]),
    ensures
        evolves(c, c.streams_updated(out, due, n).0),
        c.streams_updated(out, due, n).0.going_away == c.going_away,
        c.streams_updated(out, due, n).0.ready_waiters == c.ready_waiters,
        same_recv_window(c, c.streams_updated(out, due, n).0),
        c.streams_updated(out, due, n).0.streams.streams.dom() == c.streams.streams.dom(),
    decreases n,
{
    if n > 0 {
        lemma_updates_evolve(c, out, due, n - 1);
        let before = c.streams_updated(out, due, n - 1).0;
        let after = c.streams_updated(out, due, n).0;
        assert(before.streams.has(due[n - 1]));
        assert(after.streams.streams.dom() =~= c.streams.streams.dom());
        assert(evolves(before, after));
        lemma_evolves_on(c, before, after);
    }
}

/// Nor does the end of a batch take anything back, or start a shutdown.
pub proof fn lemma_flush_takes_nothing_back(c: ConnView, out: WriterView, gone: Seq<Ticket>)
    requires
        c.streams.wf(),
    ensures
        evolves(c, c.flushed(out, gone).0),
        c.flushed(out, gone).0.going_away == c.going_away,
{
    reveal(ConnView::flushed);
    let emptied = ConnView { pending_sends: Seq::empty(), ..c };
    lemma_items_evolve(emptied, out, c.pending_sends);
    let (sent, out) = c.sends_flushed(out);
    let (updated, out) = sent.capacity_fulfilled(gone).connection_window_updated(out);
    assert(evolves(c, updated));
    lemma_due_are_known(c, updated.streams);
    let due = updated.streams.due_updates();
    lemma_updates_evolve(updated, out, due, due.len() as int);
    let last = updated.streams_updated(out, due, due.len() as int).0;
    lemma_evolves_on(c, updated, last);
    let end = last.closed_forgotten().waiter_woken(gone);
    assert(evolves(last, end));
    lemma_evolves_on(c, last, end);
}

/// A graceful shutdown lets the streams complete: sending GOAWAY changes none of them, and at
/// the end of a batch the connection ends exactly if it is going away and no stream is left
/// open. Until then it goes on taking messages.
pub proof fn lemma_shutdown_waits_for_streams(
    c: ConnView,
    out: WriterView,
    gone: Seq<Ticket>,
    ticket: Ticket,
)
    requires
        c.streams.wf(),
    ensures
        ({
            let step = c.command_received(out, CommandView::GoAway { response_tx: ticket });
            step.conn.going_away && step.conn.streams == c.streams
        }),
        ({
            let turn = event_loop::batch_ended(c, out, gone);
            let open = c.flushed(out, gone).0.streams.active();
            &&& turn.action is Closed <==> c.going_away && open == 0
            &&& turn.action is Receive <==> !c.going_away || open > 0
        }),
{
    reveal(ConnView::command_received);
    lemma_flush_takes_nothing_back(c, out, gone);
}

/// A request must have its pseudo-headers: on a server, HEADERS that would open a stream and
/// break the rules for requests, as those without any pseudo-header do, fail the connection
/// with PROTOCOL_ERROR. No stream is opened, and nothing is told or written.
pub proof fn lemma_requests_are_complete(
    c: ConnView,
    out: WriterView,
    h: frame::headers::HeadersView,
    fields: Seq<FieldView>,
)
    requires
        !c.is_client,
        !c.streams.has(h.stream_id),
    ensures
        headers::no_pseudo(fields) ==> headers::pseudo_fault(fields, true) is Some,
        headers::pseudo_fault(fields, true) matches Some(message) ==> c.headers_received(
            out,
            h,
            Ok(fields),
        ) == c.fail(out, ErrorView::connection_msg(Reason::ProtocolError, message)),
        c.headers_received(out, h, Ok(fields)).conn.streams.has(h.stream_id) ==> headers::has(
            fields,
            ":method",
        ),
{
    reveal(ConnView::headers_received);
    headers::lemma_request_rules(fields);
    headers::lemma_colon_names();
}

/// Whoever asks whether one more stream can be opened is told that it can only if it can: if
/// the connection is not going away and fewer streams are open than may be. On a connection
/// that is going away all are told that it cannot.
pub proof fn lemma_ready_means_ready(c: ConnView, ticket: Ticket, gone: Seq<Ticket>)
    ensures
        ({
            let after = c.ready_requested(ticket);
            &&& c.going_away ==> after.events == c.events.push(refused_stream(ticket))
            &&& !c.going_away && c.streams.can_accept() ==> after.events == c.events.push(
                EventView::Done { ticket, result: Ok(()) },
            )
            &&& !c.going_away && !c.streams.can_accept() ==> after.events == c.events
                && after.ready_waiters == c.ready_waiters.push(ticket)
        }),
        c.going_away ==> c.waiter_woken(gone) == c.waiters_drained(Reason::RefusedStream),
        ({
            let after = c.waiter_woken(gone);
            forall|i: int|
                c.events.len() <= i < after.events.len() && ((#[trigger] after.events[i]) matches
                EventView::Done { result: Ok(_), .. }) ==> !c.going_away && c.streams.can_accept()
        }),
{
}

/// What whoever waits for a stream is told when there will be none.
pub open spec fn refused_stream(ticket: Ticket) -> EventView {
    EventView::Done { ticket, result: Err(ErrorView::connection(Reason::RefusedStream)) }
}

proof fn lemma_drained_tells(c: ConnView, i: int)
    requires
        0 <= i < c.ready_waiters.len(),
    ensures
        c.waiters_drained(Reason::RefusedStream).events.contains(
            refused_stream(c.ready_waiters[i]),
        ),
{
    let after = c.waiters_drained(Reason::RefusedStream);
    assert(after.events[c.events.len() + i] == refused_stream(c.ready_waiters[i]));
}

proof fn lemma_flush_refuses_waiters(c: ConnView, out: WriterView, gone: Seq<Ticket>, i: int)
    requires
        c.streams.wf(),
        c.going_away,
        0 <= i < c.ready_waiters.len(),
    ensures
        c.flushed(out, gone).0.ready_waiters.len() == 0,
        c.flushed(out, gone).0.events.contains(refused_stream(c.ready_waiters[i])),
{
    reveal(ConnView::flushed);
    let emptied = ConnView { pending_sends: Seq::empty(), ..c };
    lemma_items_evolve(emptied, out, c.pending_sends);
    let (sent, out) = c.sends_flushed(out);
    let (updated, out) = sent.capacity_fulfilled(gone).connection_window_updated(out);
    lemma_due_are_known(c, updated.streams);
    let due = updated.streams.due_updates();
    lemma_updates_evolve(updated, out, due, due.len() as int);
    let last = updated.streams_updated(out, due, due.len() as int).0;
    lemma_drained_tells(last.closed_forgotten(), i);
}

/// Whoever waits for a stream when a shutdown starts, graceful or abrupt, is told with the end
/// of the batch that there will be none, and nobody waits any more.
pub proof fn lemma_shutdown_refuses_waiters(
    c: ConnView,
    out: WriterView,
    gone: Seq<Ticket>,
    cmd: CommandView,
    i: int,
)
    requires
        c.streams.wf(),
        cmd is GoAway || cmd is AbruptShutdown,
        0 <= i < c.ready_waiters.len(),
    ensures
        ({
            let step = c.command_received(out, cmd);
            let end = step.conn.flushed(step.out, gone).0;
            &&& step.conn.going_away
            &&& end.ready_waiters.len() == 0
            &&& end.events.contains(refused_stream(c.ready_waiters[i]))
        }),
{
    reveal(ConnView::command_received);
    if let CommandView::AbruptShutdown { reason, .. } = cmd {
        lemma_failed_evolves(c, c.streams.ids.len() as int, reason);
    }
    let step = c.command_received(out, cmd);
    lemma_flush_refuses_waiters(step.conn, step.out, gone, i);
}

/// Whether nothing happened to the connection's receive window.
pub open spec fn same_recv_window(a: ConnView, b: ConnView) -> bool {
    &&& a.conn_recv_flow == b.conn_recv_flow
    &&& a.conn_recv_consumed == b.conn_recv_consumed
    &&& a.conn_recv_target == b.conn_recv_target
}

pub(crate) proof fn lemma_due_are_known(c: ConnView, store: StoreView)
    requires
        c.streams.wf(),
        store.ids == c.streams.ids,
        store.streams.dom() == c.streams.streams.dom(),
    ensures
        forall|i: int|
            0 <= i < store.due_updates().len() ==> store.has(#[trigger] store.due_updates()[i]),
{
    let due = store.due_updates();
    let f = |id: u32| store.streams[id].needs_window_update();
    assert forall|i: int| 0 <= i < due.len() implies store.has(#[trigger] due[i]) by {
        assert(due.contains(due[i]));
        streams::lemma_filter_contains(store.ids, f, due[i]);
        assert(c.streams.ids.contains(due[i]));
        assert(c.streams.has(due[i]));
    }
}

/// Whether all requests for send capacity on the stream are refused because it was reset.
pub open spec fn refused_as_reset(c: ConnView, id: u32) -> bool {
    forall|amount: u32|
        (#[trigger] c.capacity_answer(id, amount)) matches CapacityAnswer::Refuse { reset, .. }
            && reset
}

/// Whoever asks for send capacity on a stream that was reset is told so: whether the peer reset
/// it, this end did, on request or because of an error, or it was cut off by GOAWAY or by a
/// shutdown.
pub proof fn lemma_resets_are_told(
    c: ConnView,
    out: WriterView,
    id: u32,
    f: RstStreamView,
    now: u128,
    g: GoAwayView,
    reason: Reason,
)
    requires
        c.streams.wf(),
        c.streams.has(id),
        f.stream_id == id,
    ensures
        refused_as_reset(c.reset_received(f, now).conn, id),
        refused_as_reset(c.stream_closed(id), id),
        id > g.last_stream_id ==> refused_as_reset(c.goaway_received(g), id),
        !(c.streams.streams[id].state is Closed) ==> refused_as_reset(
            c.shut_down(out, reason).conn,
            id,
        ),
{
    reveal(ConnView::reset_received);
    reveal(ConnView::goaway_received);
    let n = c.streams.ids.len() as int;
    let i = c.streams.ids.index_of(id);
    assert(c.streams.ids.contains(id));
    assert(c.streams.ids[i] == id);
    lemma_abandoned(ConnView { going_away: true, ..c }, n, g);
    lemma_failed_are_closed(c, n, reason);
}

/// When a stream is forgotten, whoever still listens is told whether it was reset.
pub proof fn lemma_forgotten_streams_are_told(c: ConnView, id: u32)
    requires
        c.streams.wf(),
        c.streams.has(id),
        c.streams.streams[id].state is Closed,
    ensures
        c.closed_forgotten().events.contains(
            EventView::StreamGone { stream_id: id, reset: c.streams.is_lost(id) },
        ),
        refused_as_reset(c, id) ==> c.streams.is_lost(id),
{
    let store = c.streams;
    let closed = |id: u32| store.streams[id].state is Closed;
    let ids = store.closed_ids();
    assert(store.ids.contains(id));
    streams::lemma_filter_contains(store.ids, closed, id);
    let k = ids.index_of(id);
    assert(c.closed_forgotten().events[c.events.len() + k] == (EventView::StreamGone {
        stream_id: id,
        reset: store.is_lost(id),
    }));
    if refused_as_reset(c, id) {
        assert(c.capacity_answer(id, 0) matches CapacityAnswer::Refuse { reset, .. } && reset);
    }
}

/// A failure of one stream resets it, and whoever asks for send capacity on it is told so.
pub proof fn lemma_stream_error_is_told(
    c: ConnView,
    out: WriterView,
    f: FrameView,
    decoded: Result<Seq<FieldView>, ErrorView>,
    now: u128,
)
    ensures
        c.frame_processed(out, f, decoded, now).result matches Err(
            ErrorView::StreamError { stream_id, .. },
        ) ==> (stream_id <= frame::MAX_31_BIT && c.frame_processed(
            out,
            f,
            decoded,
            now,
        ).conn.streams.has(stream_id) ==> refused_as_reset(
            c.frame_received(out, f, decoded, now).conn,
            stream_id,
        )),
{
    reveal(ConnView::frame_received);
}

} // verus!
