//! What the end of a batch does, seen from outside: what goes out, what is left, and who is
//! told.

use crate::codec::split;
use crate::codec::writer::WriterView;
use crate::error::Reason;
use crate::frame::wire;
use crate::frame::wire::RawFrame;
use crate::frame::MAX_31_BIT;
use crate::proto::connection;
use crate::proto::connection::{CapacityView, ConnView, PendingView};
use crate::proto::events::{EventView, Ticket};
use crate::proto::flow_control::FlowControl;
use crate::proto::flush;
use crate::proto::laws;
use crate::proto::recv_laws;
use crate::proto::send;
use crate::proto::send::OutcomeView;
use crate::proto::send_laws;
use crate::proto::streams;
use crate::proto::streams::{StoreView, Stream, StreamState};
use vstd::prelude::*;

verus! {

/// Whether nothing can be sent on a stream now: the connection's window is used up, or its own.
pub open spec fn stuck(c: ConnView, id: u32) -> bool {
    ||| c.conn_send_flow.window <= 0
    ||| c.streams.has(id) && c.streams.streams[id].send_flow.window <= 0
}

/// The data that waits for a stream, in order.
pub open spec fn queued_on(items: Seq<PendingView>, id: u32) -> Seq<u8>
    decreases items.len(),
{
    if items.len() == 0 {
        Seq::empty()
    } else {
        (if items[0].stream_id == id {
            items[0].data
        } else {
            Seq::empty()
        }) + queued_on(items.drop_first(), id)
    }
}

/// What an item is for, whatever of its data is left: its stream, whether it ends it, and who
/// asked.
pub open spec fn purposes(items: Seq<PendingView>) -> Seq<(u32, bool, Ticket)> {
    items.map_values(|p: PendingView| (p.stream_id, p.end_stream, p.response_tx))
}

/// Whether `part` is `whole` with some elements left out.
pub open spec fn left_out<A>(part: Seq<A>, whole: Seq<A>) -> bool
    decreases whole.len(),
{
    if whole.len() == 0 {
        part.len() == 0
    } else {
        ||| part.len() > 0 && part[0] == whole[0] && left_out(part.drop_first(), whole.drop_first())
        ||| left_out(part, whole.drop_first())
    }
}

/// How much message data `frames` carry.
pub open spec fn data_len(frames: Seq<RawFrame>) -> nat
    decreases frames.len(),
{
    if frames.len() == 0 {
        0
    } else {
        data_len(frames.drop_last()) + if frames.last().kind == 0 {
            frames.last().payload.len()
        } else {
            0
        }
    }
}

/// Whether nobody was told of a failure to send between two moments.
pub open spec fn no_failure_told(before: ConnView, after: ConnView) -> bool {
    forall|i: int|
        before.events.len() <= i < after.events.len() ==> !((#[trigger] after.events[i]) matches EventView::Done {
            result: Err(_),
            ..
        })
}

/// Whether all identifiers are numbers that identifiers can be.
pub open spec fn identifiers_in_range(c: ConnView) -> bool {
    &&& forall|id: u32| #[trigger] c.streams.has(id) ==> 0 < id <= MAX_31_BIT
    &&& forall|i: int|
        0 <= i < c.pending_sends.len() ==> 0 < (#[trigger] c.pending_sends[i]).stream_id
            <= MAX_31_BIT
}

/// Whether `frames` are what one item sent.
spec fn item_wrote(
    c: ConnView,
    out: WriterView,
    p: PendingView,
    frames: Seq<RawFrame>,
) -> bool {
    let step = c.send_tried(out, p);
    let sent = wire::data_on(frames, p.stream_id);
    &&& wire::wrote(out, step.out, frames)
    &&& forall|i: int|
        0 <= i < frames.len() ==> (#[trigger] frames[i]).kind == 0 && frames[i].stream_id
            == p.stream_id
    &&& stuck(c, p.stream_id) ==> sent.len() == 0
    &&& step.outcome matches OutcomeView::Queued(q) ==> {
        &&& step.conn.events == c.events
        &&& sent + q.data == p.data
        &&& q == PendingView { data: q.data, ..p }
        &&& stuck(step.conn, p.stream_id)
    }
    &&& !(step.outcome is Queued) ==> {
        &&& step.conn.events.len() == c.events.len() + 1
        &&& step.conn.events.drop_last() == c.events
        &&& step.conn.events.last() matches EventView::Done { ticket, result } && ticket
            == p.response_tx && (result is Ok ==> sent == p.data)
    }
    &&& !(step.outcome is Queued) && step.conn.events.last() matches EventView::Done {
        result: Err(_),
        ..
    } || {
        &&& step.conn.conn_send_flow.window == c.conn_send_flow.window - sent.len()
        &&& c.streams.has(p.stream_id)
            ==> step.conn.streams.streams[p.stream_id].send_flow.window
            == c.streams.streams[p.stream_id].send_flow.window - sent.len()
    }
    &&& c.streams.has(p.stream_id) ==> ({
        let s = c.streams.streams[p.stream_id].state;
        let t = step.conn.streams.streams[p.stream_id].state;
        t == s || p.end_stream && step.outcome is Sent && send_laws::own_side(s, t, true)
            && send_laws::may_send(c.streams.streams[p.stream_id])
    })
}

proof fn lemma_known_item_writes(c: ConnView, out: WriterView, p: PendingView) -> (frames: Seq<
    RawFrame,
>)
    requires
        send_laws::frame_size_is_valid(c),
        p.stream_id <= MAX_31_BIT,
        p.data.len() <= c.pending_send_bytes,
        c.streams.has(p.stream_id),
    ensures
        item_wrote(c, out, p, frames),
{
    let id = p.stream_id;
    let step = c.send_tried(out, p);
    let n = send_laws::sendable(c, id);
    let max = c.settings.remote.max_frame_size;
    let none = Seq::<RawFrame>::empty();
    wire::lemma_wrote_nothing(out);
    assert(wire::data_on(none, id) =~= Seq::empty());
    assert(Seq::<u8>::empty() + p.data =~= p.data);
    laws::lemma_sending_respects_windows(c, out, p);
    send_laws::lemma_waiting_data_is_sent(c, out, p);
    lemma_step_keeps(c, out, p, id);
    if p.data.len() <= n {
        assert(step.conn.events.drop_last() =~= c.events);
        if !p.end_stream || send_laws::may_send(c.streams.streams[id]) {
            assert(send_laws::data_went_out(out, step.out, id, p.data, p.end_stream, max));
            let frames = choose|frames: Seq<RawFrame>|
                wire::wrote(out, step.out, frames) && #[trigger] send_laws::carry_data(
                    frames,
                    id,
                    p.data,
                    p.end_stream,
                    max,
                );
            assert(item_wrote(c, out, p, frames));
            frames
        } else {
            assert(step.conn.streams.streams[id].state == c.streams.streams[id].state) by {
                reveal(ConnView::send_tried);
                reveal(ConnView::data_sent);
            }
            assert(item_wrote(c, out, p, none));
            none
        }
    } else if n > 0 {
        assert(send_laws::data_went_out(out, step.out, id, p.data.take(n), false, max));
        let frames = choose|frames: Seq<RawFrame>|
            wire::wrote(out, step.out, frames) && #[trigger] send_laws::carry_data(
                frames,
                id,
                p.data.take(n),
                false,
                max,
            );
        assert(p.data.take(n) + p.data.skip(n) =~= p.data);
        assert(item_wrote(c, out, p, frames));
        frames
    } else {
        assert(p.data.skip(0) =~= p.data);
        assert(item_wrote(c, out, p, none));
        none
    }
}

/// What one item sends, for whichever stream it is.
proof fn lemma_try_writes(c: ConnView, out: WriterView, p: PendingView) -> (frames: Seq<RawFrame>)
    requires
        send_laws::frame_size_is_valid(c),
        p.stream_id <= MAX_31_BIT,
        p.data.len() <= c.pending_send_bytes,
    ensures
        item_wrote(c, out, p, frames),
{
    let id = p.stream_id;
    let step = c.send_tried(out, p);
    if c.streams.has(id) {
        lemma_known_item_writes(c, out, p)
    } else {
        let max = c.settings.remote.max_frame_size;
        wire::lemma_wrote_nothing(out);
        assert(wire::data_on(Seq::<RawFrame>::empty(), id) =~= Seq::empty());
        assert(Seq::<u8>::empty() + p.data =~= p.data);
        reveal(ConnView::send_tried);
        reveal(ConnView::data_sent);
        if p.data.len() == 0 {
            send_laws::lemma_data_is_written(out, id, p.data, p.end_stream, max);
            assert(step.conn.events.drop_last() =~= c.events);
            wire::raw_data(split::data_frames(id, p.data, p.end_stream, max as nat))
        } else {
            if c.conn_send_flow.window > 0 {
                assert(step.conn.events.drop_last() =~= c.events);
            }
            Seq::empty()
        }
    }
}

proof fn lemma_nothing_for_others(frames: Seq<RawFrame>, id: u32)
    requires
        forall|i: int|
            0 <= i < frames.len() ==> (#[trigger] frames[i]).kind == 0 && frames[i].stream_id
                != id,
    ensures
        wire::data_on(frames, id) == Seq::<u8>::empty(),
    decreases frames.len(),
{
    if frames.len() > 0 {
        let before = frames.drop_last();
        assert forall|i: int| 0 <= i < before.len() implies (#[trigger] before[i]).kind == 0
            && before[i].stream_id != id by {
            assert(before[i] == frames[i]);
        }
        lemma_nothing_for_others(before, id);
        assert(frames.last().stream_id != id);
        assert(wire::data_on(frames, id) =~= Seq::empty());
    }
}

proof fn lemma_data_changes_no_window(frames: Seq<RawFrame>, id: u32)
    requires
        forall|i: int| 0 <= i < frames.len() ==> (#[trigger] frames[i]).kind == 0,
    ensures
        wire::increments_on(frames, id) == Seq::<int>::empty(),
    decreases frames.len(),
{
    if frames.len() > 0 {
        let before = frames.drop_last();
        assert forall|i: int| 0 <= i < before.len() implies (#[trigger] before[i]).kind == 0 by {
            assert(before[i] == frames[i]);
        }
        lemma_data_changes_no_window(before, id);
        assert(frames.last().kind == 0);
        assert(wire::increments_on(frames, id) =~= Seq::empty());
    }
}

/// What all items send.
proof fn lemma_items_write(c: ConnView, out: WriterView, items: Seq<PendingView>, id: u32) -> (frames:
    Seq<RawFrame>)
    requires
        send_laws::frame_size_is_valid(c),
        forall|i: int| 0 <= i < items.len() ==> (#[trigger] items[i]).stream_id <= MAX_31_BIT,
        connection::total(items) <= c.pending_send_bytes,
    ensures
        ({
            let step = c.items_sent(out, items);
            &&& wire::wrote(out, step.out, frames)
            &&& forall|i: int| 0 <= i < frames.len() ==> (#[trigger] frames[i]).kind == 0
            &&& c.events.len() <= step.conn.events.len()
            &&& step.conn.events.take(c.events.len() as int) == c.events
            &&& no_failure_told(c, step.conn) ==> wire::data_on(frames, id) + queued_on(
                step.left,
                id,
            ) == queued_on(items, id)
            &&& stuck(c, id) ==> wire::data_on(frames, id).len() == 0
            &&& step.left.len() + step.conn.events.len() == items.len() + c.events.len()
            &&& left_out(purposes(step.left), purposes(items))
            &&& no_failure_told(c, step.conn) ==> step.conn.conn_send_flow.window
                == c.conn_send_flow.window - data_len(frames)
            &&& no_failure_told(c, step.conn) && c.streams.has(id)
                ==> step.conn.streams.streams[id].send_flow.window
                == c.streams.streams[id].send_flow.window - wire::data_on(frames, id).len()
            &&& c.streams.has(id) && (forall|i: int|
                0 <= i < items.len() ==> !((#[trigger] items[i]).stream_id == id
                    && items[i].end_stream)) ==> step.conn.streams.streams[id].state
                == c.streams.streams[id].state
        }),
    decreases items.len(),
{
    let end = c.items_sent(out, items);
    if items.len() == 0 {
        wire::lemma_wrote_nothing(out);
        assert(wire::data_on(Seq::<RawFrame>::empty(), id) + queued_on(end.left, id)
            =~= queued_on(items, id));
        assert(end.conn.events.take(c.events.len() as int) =~= c.events);
        assert(purposes(end.left).len() == 0);
        Seq::empty()
    } else {
        let p = items[0];
        let rest = items.drop_first();
        let step = c.send_tried(out, p);
        let first = lemma_try_writes(c, out, p);
        send::lemma_send_tried_counts(c, out, p);
        laws::lemma_items_respect_windows(c, out, seq![p]);
        lemma_step_keeps(c, out, p, id);
        assert forall|i: int| 0 <= i < rest.len() implies (#[trigger] rest[i]).stream_id
            <= MAX_31_BIT by {
            assert(rest[i] == items[i + 1]);
        }
        let then = lemma_items_write(step.conn, step.out, rest, id);
        let after = step.conn.items_sent(step.out, rest);
        let frames = first + then;
        wire::lemma_wrote_on(out, step.out, end.out, first, then);
        wire::lemma_data_on_adds(first, then, id);
        assert forall|i: int| 0 <= i < frames.len() implies (#[trigger] frames[i]).kind == 0 by {
            if i < first.len() {
                assert(frames[i] == first[i]);
            } else {
                assert(frames[i] == then[i - first.len()]);
            }
        }
        if p.stream_id != id {
            lemma_nothing_for_others(first, id);
        }
        let n = c.events.len() as int;
        assert(step.conn.events.take(n) =~= c.events);
        assert(end.conn.events.take(n) =~= step.conn.events.take(n)) by {
            let k = step.conn.events.len() as int;
            assert(end.conn.events.take(k) == step.conn.events);
            assert forall|i: int| 0 <= i < n implies end.conn.events[i]
                == step.conn.events[i] by {
                assert(end.conn.events.take(k)[i] == end.conn.events[i]);
            }
        }
        if no_failure_told(c, end.conn) {
            assert(no_failure_told(step.conn, end.conn));
            let before = wire::data_on(first, id);
            let sent = wire::data_on(then, id);
            match step.outcome {
                OutcomeView::Queued(q) => {
                    assert(end.left == seq![q] + after.left);
                    assert((seq![q] + after.left).drop_first() =~= after.left);
                    assert(end.left[0] == q);
                    if p.stream_id == id {
                        assert(sent =~= Seq::empty());
                        assert(before + sent + (q.data + queued_on(after.left, id)) =~= (before
                            + q.data) + (sent + queued_on(after.left, id)));
                    } else {
                        assert(before + sent + (Seq::<u8>::empty() + queued_on(after.left, id))
                            =~= Seq::<u8>::empty() + (sent + queued_on(after.left, id)));
                    }
                },
                _ => {
                    let k = step.conn.events.len() as int;
                    assert(end.conn.events.take(k)[k - 1] == end.conn.events[k - 1]);
                    assert(end.conn.events[k - 1] == step.conn.events.last());
                    assert(end.left == after.left);
                    assert(before + sent + queued_on(after.left, id) =~= before + (sent
                        + queued_on(after.left, id)));
                },
            }
        }
        if stuck(c, id) {
            assert(stuck(step.conn, id));
            assert(wire::data_on(first, id).len() == 0);
        }
        lemma_data_len_adds(first, then);
        lemma_data_len_is_on(first, p.stream_id);
        assert(purposes(items).drop_first() =~= purposes(rest));
        if let OutcomeView::Queued(q) = step.outcome {
            assert(purposes(end.left).drop_first() =~= purposes(after.left));
            assert(purposes(end.left)[0] == purposes(items)[0]);
        }
        if forall|i: int|
            0 <= i < items.len() ==> !((#[trigger] items[i]).stream_id == id
                && items[i].end_stream) {
            assert(!(items[0].stream_id == id && items[0].end_stream));
            assert forall|i: int| 0 <= i < rest.len() implies !((#[trigger] rest[i]).stream_id
                == id && rest[i].end_stream) by {
                assert(rest[i] == items[i + 1]);
            }
        }
        frames
    }
}

proof fn lemma_data_len_adds(a: Seq<RawFrame>, b: Seq<RawFrame>)
    ensures
        data_len(a + b) == data_len(a) + data_len(b),
    decreases b.len(),
{
    if b.len() == 0 {
        assert(a + b =~= a);
    } else {
        lemma_data_len_adds(a, b.drop_last());
        assert((a + b).drop_last() =~= a + b.drop_last());
    }
}

proof fn lemma_data_len_is_on(frames: Seq<RawFrame>, id: u32)
    requires
        forall|i: int|
            0 <= i < frames.len() ==> (#[trigger] frames[i]).kind == 0 && frames[i].stream_id
                == id,
    ensures
        data_len(frames) == wire::data_on(frames, id).len(),
    decreases frames.len(),
{
    if frames.len() > 0 {
        let before = frames.drop_last();
        assert forall|i: int| 0 <= i < before.len() implies (#[trigger] before[i]).kind == 0
            && before[i].stream_id == id by {
            assert(before[i] == frames[i]);
        }
        lemma_data_len_is_on(before, id);
        assert(frames.last().stream_id == id && frames.last().kind == 0);
    }
}

/// A try changes nothing of the settings, and leaves a stream that was stuck stuck.
proof fn lemma_step_keeps(c: ConnView, out: WriterView, p: PendingView, id: u32)
    ensures
        ({
            let after = c.send_tried(out, p).conn;
            let s = c.streams.streams[id];
            let t = after.streams.streams[id];
            &&& after.streams.has(id) == c.streams.has(id)
            &&& c.streams.has(id) ==> t == Stream {
                state: t.state,
                send_flow: FlowControl { window: t.send_flow.window, ..s.send_flow },
                ..s
            }
            &&& stuck(c, id) ==> stuck(after, id)
            &&& id != p.stream_id ==> t == s
            &&& after == ConnView {
                conn_send_flow: FlowControl {
                    window: after.conn_send_flow.window,
                    ..c.conn_send_flow
                },
                streams: StoreView { streams: after.streams.streams, ..c.streams },
                pending_send_bytes: after.pending_send_bytes,
                events: after.events,
                ..c
            }
        }),
{
    reveal(ConnView::send_tried);
    reveal(ConnView::data_sent);
}

proof fn lemma_items_keep(c: ConnView, out: WriterView, items: Seq<PendingView>, id: u32)
    ensures
        ({
            let after = c.items_sent(out, items).conn;
            let s = c.streams.streams[id];
            let t = after.streams.streams[id];
            &&& after.streams.has(id) == c.streams.has(id)
            &&& c.streams.has(id) ==> t == Stream {
                state: t.state,
                send_flow: FlowControl { window: t.send_flow.window, ..s.send_flow },
                ..s
            }
            &&& after == ConnView {
                conn_send_flow: FlowControl {
                    window: after.conn_send_flow.window,
                    ..c.conn_send_flow
                },
                streams: StoreView { streams: after.streams.streams, ..c.streams },
                pending_send_bytes: after.pending_send_bytes,
                events: after.events,
                ..c
            }
        }),
    decreases items.len(),
{
    if items.len() > 0 {
        let step = c.send_tried(out, items[0]);
        lemma_step_keeps(c, out, items[0], id);
        lemma_items_keep(step.conn, step.out, items.drop_first(), id);
    }
}

proof fn lemma_left_is_stuck(c: ConnView, out: WriterView, items: Seq<PendingView>, i: int)
    requires
        0 <= i < c.items_sent(out, items).left.len(),
    ensures
        stuck(c.items_sent(out, items).conn, c.items_sent(out, items).left[i].stream_id),
    decreases items.len(),
{
    let step = c.send_tried(out, items[0]);
    let rest = items.drop_first();
    let after = step.conn.items_sent(step.out, rest);
    match step.outcome {
        OutcomeView::Queued(q) => {
            if i == 0 {
                assert(stuck(step.conn, q.stream_id)) by {
                    reveal(ConnView::send_tried);
                    reveal(ConnView::data_sent);
                }
                laws::lemma_items_respect_windows(step.conn, step.out, rest);
                lemma_items_keep(step.conn, step.out, rest, q.stream_id);
                assert(c.items_sent(out, items).left[0] == q);
            } else {
                lemma_left_is_stuck(step.conn, step.out, rest, i - 1);
                assert(c.items_sent(out, items).left[i] == after.left[i - 1]);
            }
        },
        _ => {
            lemma_left_is_stuck(step.conn, step.out, rest, i);
        },
    }
}

/// Flushing what waits leaves nothing behind that could have gone out: whatever still waits is
/// for a stream on which nothing can be sent now, because its own window or the connection's
/// is used up. A stream that is blocked does not hold up another one.
pub proof fn lemma_flush_leaves_nothing_sendable(c: ConnView, out: WriterView, i: int)
    ensures
        ({
            let after = c.sends_flushed(out).0;
            0 <= i < after.pending_sends.len() ==> {
                let id = after.pending_sends[i].stream_id;
                ||| after.conn_send_flow.window <= 0
                ||| after.streams.has(id) && after.streams.streams[id].send_flow.window <= 0
            }
        }),
{
    let start = ConnView { pending_sends: Seq::empty(), ..c };
    if 0 <= i < c.sends_flushed(out).0.pending_sends.len() {
        lemma_left_is_stuck(start, out, c.pending_sends, i);
    }
}

/// Flushing what waits sends it in order: the DATA frames that go out for a stream, followed by
/// what still waits for it, make up what waited before, unless somebody was told that sending
/// failed; both windows shrink by what went out. Nothing but DATA goes out. Everything that
/// waited either still waits, in its place and for what it was for, or was answered, once. A
/// stream changes in nothing but its window and, where an end waited for it, its own side; of the
/// rest of the connection nothing changes.
pub proof fn lemma_flush_sends_in_order(c: ConnView, out: WriterView, id: u32)
    requires
        c.wf(),
        send_laws::frame_size_is_valid(c),
        identifiers_in_range(c),
    ensures
        ({
            let (after, written) = c.sends_flushed(out);
            &&& exists|frames: Seq<RawFrame>| #[trigger]
                wire::wrote(out, written, frames) && (forall|i: int|
                    0 <= i < frames.len() ==> (#[trigger] frames[i]).kind == 0) && (
                no_failure_told(c, after) ==> wire::data_on(frames, id) + queued_on(
                    after.pending_sends,
                    id,
                ) == queued_on(c.pending_sends, id) && after.conn_send_flow.window
                    == c.conn_send_flow.window - data_len(frames) && (c.streams.has(id)
                    ==> after.streams.streams[id].send_flow.window
                    == c.streams.streams[id].send_flow.window - wire::data_on(frames, id).len()))
            &&& after.pending_sends.len() + after.events.len() == c.pending_sends.len()
                + c.events.len()
            &&& after.events.take(c.events.len() as int) == c.events
            &&& left_out(purposes(after.pending_sends), purposes(c.pending_sends))
            &&& after.streams.has(id) == c.streams.has(id)
            &&& c.streams.has(id) ==> after.streams.streams[id] == (Stream {
                state: after.streams.streams[id].state,
                send_flow: FlowControl {
                    window: after.streams.streams[id].send_flow.window,
                    ..c.streams.streams[id].send_flow
                },
                ..c.streams.streams[id]
            })
            &&& c.streams.has(id) && (forall|i: int|
                0 <= i < c.pending_sends.len() ==> !((#[trigger] c.pending_sends[i]).stream_id
                    == id && c.pending_sends[i].end_stream)) ==> after.streams.streams[id].state
                == c.streams.streams[id].state
            &&& after == ConnView {
                conn_send_flow: FlowControl {
                    window: after.conn_send_flow.window,
                    ..c.conn_send_flow
                },
                streams: StoreView { streams: after.streams.streams, ..c.streams },
                pending_sends: after.pending_sends,
                pending_send_bytes: after.pending_send_bytes,
                events: after.events,
                ..c
            }
        }),
{
    let start = ConnView { pending_sends: Seq::empty(), ..c };
    assert forall|i: int| 0 <= i < c.pending_sends.len() implies (
    #[trigger] c.pending_sends[i]).stream_id <= MAX_31_BIT by {}
    let frames = lemma_items_write(start, out, c.pending_sends, id);
    assert(wire::wrote(out, c.sends_flushed(out).1, frames));
    lemma_items_keep(start, out, c.pending_sends, id);
}

/// The WINDOW_UPDATE frames for the first `n` streams of `due`.
spec fn updates(c: ConnView, due: Seq<u32>, n: int) -> Seq<RawFrame> {
    Seq::new(
        n as nat,
        |i: int| wire::window_update(due[i], c.streams.streams[due[i]].released),
    )
}

proof fn lemma_updates_are_written(c: ConnView, out: WriterView, due: Seq<u32>, n: int, id: u32)
    requires
        0 <= n <= due.len(),
        due.no_duplicates(),
        forall|i: int| 0 <= i < due.len() ==> (#[trigger] due[i]) <= MAX_31_BIT,
        forall|i: int| 0 <= i < due.len() ==> c.streams.has(#[trigger] due[i]),
    ensures
        ({
            let (after, written) = c.streams_updated(out, due, n);
            let reached = exists|k: int| 0 <= k < n && due[k] == id;
            let s = c.streams.streams[id];
            let t = after.streams.streams[id];
            &&& wire::wrote(out, written, updates(c, due, n))
            &&& after == ConnView {
                streams: StoreView { streams: after.streams.streams, ..c.streams },
                ..c
            }
            &&& after.streams.has(id) == c.streams.has(id)
            &&& !reached ==> t == s
            &&& reached ==> t == Stream {
                released: 0,
                recv_flow: FlowControl {
                    window: if s.recv_flow.window + s.released <= MAX_31_BIT {
                        (s.recv_flow.window + s.released) as i32
                    } else {
                        s.recv_flow.window
                    },
                    ..s.recv_flow
                },
                ..s
            }
        }),
    decreases n,
{
    if n <= 0 {
        wire::lemma_wrote_nothing(out);
        assert(updates(c, due, n) =~= Seq::empty());
    } else {
        lemma_updates_are_written(c, out, due, n - 1, id);
        let (before, first) = c.streams_updated(out, due, n - 1);
        let at = due[n - 1];
        lemma_updates_are_written(c, out, due, n - 1, at);
        let released = c.streams.streams[at].released;
        wire::lemma_wrote_control(first, at, released, Seq::new(8, |i: int| 0u8));
        let next = first.frame(flush::update_bytes(at, released));
        wire::lemma_wrote_on(
            out,
            first,
            next,
            updates(c, due, n - 1),
            seq![wire::window_update(at, released)],
        );
        assert(updates(c, due, n - 1) + seq![wire::window_update(at, released)] =~= updates(
            c,
            due,
            n,
        ));
        if at != id {
            assert forall|k: int| 0 <= k < n && due[k] == id implies k < n - 1 by {}
        }
    }
}

proof fn lemma_updates_increment(c: ConnView, due: Seq<u32>, n: int, id: u32)
    requires
        0 <= n <= due.len(),
        due.no_duplicates(),
    ensures
        wire::increments_on(updates(c, due, n), id) == if exists|k: int| 0 <= k < n && due[k] == id {
            seq![c.streams.streams[id].released as int]
        } else {
            Seq::<int>::empty()
        },
        wire::data_on(updates(c, due, n), id) == Seq::<u8>::empty(),
    decreases n,
{
    let frames = updates(c, due, n);
    if n > 0 {
        lemma_updates_increment(c, due, n - 1, id);
        assert(frames.drop_last() =~= updates(c, due, n - 1));
        let at = due[n - 1];
        wire::lemma_numbers_read_back(c.streams.streams[at].released);
        assert(frames.last() == wire::window_update(at, c.streams.streams[at].released));
        if at == id {
            assert forall|k: int| 0 <= k < n - 1 implies due[k] != id by {
                assert(due[n - 1] == id);
            }
            assert(due[n - 1] == id);
            assert(wire::increments_on(frames, id) =~= seq![
                c.streams.streams[id].released as int,
            ]);
        } else {
            assert forall|k: int| 0 <= k < n && due[k] == id implies k < n - 1 by {}
            assert(wire::increments_on(frames, id) =~= wire::increments_on(
                updates(c, due, n - 1),
                id,
            ));
        }
        assert(wire::data_on(frames, id) =~= Seq::empty());
    }
}

proof fn lemma_filter_keeps_order(s: Seq<u32>, p: spec_fn(u32) -> bool)
    requires
        s.no_duplicates(),
    ensures
        s.filter(p).no_duplicates(),
    decreases s.len(),
{
    reveal(Seq::filter);
    if s.len() > 0 {
        let before = s.drop_last();
        assert(before.no_duplicates());
        lemma_filter_keeps_order(before, p);
        let f = before.filter(p);
        if p(s.last()) {
            if f.contains(s.last()) {
                streams::lemma_filter_contains(before, p, s.last());
                let k = before.index_of(s.last());
                assert(s[k] == s[s.len() - 1]);
            }
            assert forall|i: int, j: int|
                0 <= i < f.len() + 1 && 0 <= j < f.len() + 1 && i != j implies f.push(
                s.last(),
            )[i] != f.push(s.last())[j] by {
                if i == f.len() {
                    assert(f.contains(f[j]));
                } else if j == f.len() {
                    assert(f.contains(f[i]));
                }
            }
        }
    }
}

/// Whether the peer is to get back what the application released of a stream: at least half of
/// the window that the stream started with.
pub open spec fn release_is_due(s: Stream) -> bool {
    s.released > 0 && s.released >= s.recv_flow.initial / 2
}

proof fn lemma_due_updates(c: ConnView, id: u32)
    requires
        c.streams.wf(),
        forall|id: u32| #[trigger] c.streams.has(id) ==> 0 < id <= MAX_31_BIT,
    ensures
        ({
            let due = c.streams.due_updates();
            let reached = exists|k: int| 0 <= k < due.len() && due[k] == id;
            &&& due.no_duplicates()
            &&& forall|i: int| 0 <= i < due.len() ==> (#[trigger] due[i]) <= MAX_31_BIT
            &&& forall|i: int| 0 <= i < due.len() ==> c.streams.has(#[trigger] due[i])
            &&& forall|i: int| 0 <= i < due.len() ==> (#[trigger] due[i]) > 0
            &&& reached ==> c.streams.has(id)
            &&& c.streams.has(id) && c.streams.streams[id].recv_flow.initial >= 0 ==> reached
                == release_is_due(c.streams.streams[id])
        }),
{
    let due = c.streams.due_updates();
    let f = |id: u32| c.streams.streams[id].needs_window_update();
    lemma_filter_keeps_order(c.streams.ids, f);
    assert forall|i: int| 0 <= i < due.len() implies c.streams.has(#[trigger] due[i]) && 0 < due[i]
        <= MAX_31_BIT by {
        assert(due.contains(due[i]));
        streams::lemma_filter_contains(c.streams.ids, f, due[i]);
        assert(c.streams.ids.contains(due[i]));
        assert(c.streams.has(due[i]));
    }
    if c.streams.has(id) {
        assert(c.streams.ids.contains(id));
        streams::lemma_filter_contains(c.streams.ids, f, id);
        if due.contains(id) {
            let k = due.index_of(id);
            assert(due[k] == id);
        }
        if exists|k: int| 0 <= k < due.len() && due[k] == id {
            let k = choose|k: int| 0 <= k < due.len() && due[k] == id;
            assert(due.contains(due[k]));
        }
    }
}

/// What the peer is told of windows, and what is counted, agree: for every stream of which
/// enough was released, exactly one WINDOW_UPDATE goes out, with its identifier and what was
/// released, and its window grows by that much; for no other stream one goes out, and none of
/// them changes.
pub proof fn lemma_released_windows_are_given_back(c: ConnView, out: WriterView, id: u32)
    requires
        c.streams.wf(),
        forall|id: u32| #[trigger] c.streams.has(id) ==> 0 < id <= MAX_31_BIT,
        c.streams.has(id) ==> c.streams.streams[id].recv_flow.initial >= 0,
    ensures
        ({
            let due = c.streams.due_updates();
            let (after, written) = c.streams_updated(out, due, due.len() as int);
            let s = c.streams.streams[id];
            let t = after.streams.streams[id];
            let given = c.streams.has(id) && release_is_due(s);
            &&& exists|frames: Seq<RawFrame>| #[trigger]
                wire::wrote(out, written, frames) && wire::increments_on(frames, id) == (if given {
                    seq![s.released as int]
                } else {
                    Seq::<int>::empty()
                }) && forall|i: int|
                    0 <= i < frames.len() ==> (#[trigger] frames[i]).kind == 8
                        && c.streams.has(frames[i].stream_id)
            &&& given ==> t.released == 0 && (s.recv_flow.window + s.released <= MAX_31_BIT
                ==> t.recv_flow.window == s.recv_flow.window + s.released) && t == (Stream {
                released: 0,
                recv_flow: FlowControl { window: t.recv_flow.window, ..s.recv_flow },
                ..s
            })
            &&& !given ==> t == s
            &&& after.streams.has(id) == c.streams.has(id)
            &&& after == ConnView {
                streams: StoreView { streams: after.streams.streams, ..c.streams },
                ..c
            }
        }),
{
    let due = c.streams.due_updates();
    let n = due.len() as int;
    lemma_due_updates(c, id);
    lemma_updates_are_written(c, out, due, n, id);
    lemma_updates_increment(c, due, n, id);
    let frames = updates(c, due, n);
    assert(wire::wrote(out, c.streams_updated(out, due, n).1, frames));
    assert forall|i: int| 0 <= i < frames.len() implies (#[trigger] frames[i]).kind == 8
        && c.streams.has(frames[i].stream_id) by {
        assert(c.streams.has(due[i]));
    }
}

/// Once half of its target is used up, the connection's receive window is brought back to the
/// target by one WINDOW_UPDATE for the difference; before that nothing goes out.
pub proof fn lemma_connection_window_is_given_back(c: ConnView, out: WriterView)
    requires
        c.conn_recv_target >= 0,
    ensures
        ({
            let (after, written) = c.connection_window_updated(out);
            let missing = c.conn_recv_target - c.conn_recv_flow.window;
            let given = missing > 0 && missing >= c.conn_recv_target / 2 && missing <= u32::MAX;
            &&& given ==> wire::wrote(
                out,
                written,
                seq![wire::window_update(0, missing as u32)],
            ) && after == (ConnView {
                conn_recv_flow: FlowControl {
                    window: c.conn_recv_target,
                    ..c.conn_recv_flow
                },
                conn_recv_consumed: 0,
                ..c
            })
            &&& missing <= 0 || missing < c.conn_recv_target / 2 ==> written == out && after == c
        }),
{
    let missing = c.conn_recv_target - c.conn_recv_flow.window;
    if 0 < missing <= u32::MAX {
        wire::lemma_wrote_control(out, 0, missing as u32, Seq::new(8, |i: int| 0u8));
    }
}

/// Whoever waits for send capacity, and is still there, is answered as soon as there is
/// something to say, with exactly that; all others go on waiting, and nobody else is told
/// anything.
pub proof fn lemma_waiting_capacity_is_answered(c: ConnView, gone: Seq<Ticket>, i: int)
    ensures
        ({
            let after = c.capacity_fulfilled(gone);
            let p = c.pending_capacity[i];
            let n = c.events.len();
            &&& after == ConnView {
                pending_capacity: after.pending_capacity,
                events: after.events,
                ..c
            }
            &&& after.events.len() >= n
            &&& after.events.take(n as int) == c.events
            &&& 0 <= i < c.pending_capacity.len() && !gone.contains(p.response_tx)
                ==> match send_laws::capacity_reply(c, p) {
                Some(e) => after.events.skip(n as int).contains(e),
                None => after.pending_capacity.contains(p),
            }
            &&& 0 <= i < after.pending_capacity.len() ==> c.pending_capacity.contains(
                after.pending_capacity[i],
            ) && !gone.contains(after.pending_capacity[i].response_tx)
                && send_laws::capacity_reply(c, after.pending_capacity[i]) is None
            &&& n <= i < after.events.len() ==> exists|q: CapacityView| #[trigger]
                c.pending_capacity.contains(q) && !gone.contains(q.response_tx)
                    && send_laws::capacity_reply(c, q) == Some(after.events[i])
        }),
{
    let after = c.capacity_fulfilled(gone);
    let all = c.pending_capacity;
    let n = c.events.len() as int;
    let waits = |p: CapacityView|
        !gone.contains(p.response_tx) && c.capacity_answer(p.stream_id, p.amount) is Wait;
    let told = |p: CapacityView|
        !gone.contains(p.response_tx) && !(c.capacity_answer(p.stream_id, p.amount) is Wait);
    let answer = |p: CapacityView|
        c.capacity_answer(p.stream_id, p.amount).told_to(p.response_tx);
    let replies = all.filter(told).map_values(answer);
    assert(after.events == c.events + replies);
    assert(after.pending_capacity == all.filter(waits));
    assert(after.events.take(n) =~= c.events);
    assert(after.events.skip(n) =~= replies);
    if 0 <= i < all.len() && !gone.contains(all[i].response_tx) {
        let p = all[i];
        assert(all.contains(p));
        streams::lemma_filter_contains(all, waits, p);
        streams::lemma_filter_contains(all, told, p);
        if send_laws::capacity_reply(c, p) is Some {
            let k = all.filter(told).index_of(p);
            assert(replies[k] == answer(p));
        }
    }
    if 0 <= i < after.pending_capacity.len() {
        let p = after.pending_capacity[i];
        assert(after.pending_capacity.contains(p));
        streams::lemma_filter_contains(all, waits, p);
    }
    if n <= i < after.events.len() {
        let q = all.filter(told)[i - n];
        assert(all.filter(told).contains(q));
        streams::lemma_filter_contains(all, told, q);
        assert(after.events[i] == answer(q));
        assert(all.contains(q));
    }
}

/// Closed streams are forgotten, and only they: all others stay as they were, in order.
pub proof fn lemma_only_closed_streams_are_forgotten(c: ConnView, id: u32)
    requires
        c.streams.wf(),
    ensures
        ({
            let after = c.closed_forgotten();
            &&& after.streams.has(id) <==> c.streams.has(id) && c.streams.streams[id].state
                != StreamState::Closed
            &&& after.streams.has(id) ==> after.streams.streams[id] == c.streams.streams[id]
            &&& after.streams.ids.contains(id) == after.streams.has(id)
            &&& after == ConnView {
                streams: StoreView {
                    ids: after.streams.ids,
                    streams: after.streams.streams,
                    ..c.streams
                },
                events: after.events,
                ..c
            }
            &&& after.events.take(c.events.len() as int) == c.events
        }),
{
    let alive = |id: u32| !(c.streams.streams[id].state is Closed);
    streams::lemma_filter_contains(c.streams.ids, alive, id);
    if c.streams.has(id) {
        assert(c.streams.ids.contains(id));
    }
    assert(c.closed_forgotten().events.take(c.events.len() as int) =~= c.events);
}

/// When one more stream can be opened, exactly one of those who wait for it is told: the last
/// one who is still there. Nobody is told otherwise, but that none will be opened any more, which
/// all are told.
pub proof fn lemma_one_waiter_is_woken(c: ConnView, gone: Seq<Ticket>)
    ensures
        ({
            let after = c.waiter_woken(gone);
            let waiters = c.ready_waiters;
            let room = c.streams.active() < c.streams.max_concurrent;
            &&& after == ConnView {
                ready_waiters: after.ready_waiters,
                events: after.events,
                ..c
            }
            &&& c.going_away ==> after.ready_waiters.len() == 0 && after.events.len()
                == c.events.len() + waiters.len() && forall|i: int|
                0 <= i < waiters.len() ==> after.events[c.events.len() + i] == (EventView::Done {
                    ticket: #[trigger] waiters[i],
                    result: recv_laws::connection_error(Reason::RefusedStream),
                })
            &&& !c.going_away && !room ==> after == c
            &&& !c.going_away && room ==> {
                ||| after.ready_waiters.len() == 0 && after.events == c.events && forall|i: int|
                    0 <= i < waiters.len() ==> gone.contains(#[trigger] waiters[i])
                ||| exists|k: int|
                    {
                        &&& 0 <= k < waiters.len()
                        &&& !gone.contains(#[trigger] waiters[k])
                        &&& forall|i: int|
                            k < i < waiters.len() ==> gone.contains(#[trigger] waiters[i])
                        &&& after.ready_waiters == waiters.take(k)
                        &&& after.events == c.events.push(
                            EventView::Done { ticket: waiters[k], result: Ok(()) },
                        )
                    }
            }
        }),
{
    lemma_last_present(c.ready_waiters, gone);
}

proof fn lemma_last_present(waiters: Seq<Ticket>, gone: Seq<Ticket>)
    ensures
        match flush::last_present(waiters, gone) {
            (rest, None) => rest.len() == 0 && forall|i: int|
                0 <= i < waiters.len() ==> gone.contains(#[trigger] waiters[i]),
            (rest, Some(t)) => {
                let k = rest.len() as int;
                &&& k < waiters.len()
                &&& waiters[k] == t
                &&& !gone.contains(waiters[k])
                &&& rest == waiters.take(k)
                &&& forall|i: int| k < i < waiters.len() ==> gone.contains(#[trigger] waiters[i])
            },
        },
    decreases waiters.len(),
{
    if waiters.len() > 0 {
        let before = waiters.drop_last();
        if gone.contains(waiters.last()) {
            lemma_last_present(before, gone);
            match flush::last_present(waiters, gone) {
                (rest, None) => {
                    assert forall|i: int| 0 <= i < waiters.len() implies gone.contains(
                        #[trigger] waiters[i],
                    ) by {
                        if i < before.len() {
                            assert(before[i] == waiters[i]);
                        }
                    }
                },
                (rest, Some(t)) => {
                    let k = rest.len() as int;
                    assert(before[k] == waiters[k]);
                    assert(before.take(k) =~= waiters.take(k));
                    assert forall|i: int| k < i < waiters.len() implies gone.contains(
                        #[trigger] waiters[i],
                    ) by {
                        if i < before.len() {
                            assert(before[i] == waiters[i]);
                        }
                    }
                },
            }
        } else {
            assert(before =~= waiters.take(waiters.len() - 1));
        }
    }
}

/// What sending leaves as it was.
proof fn lemma_sending_keeps(c: ConnView, out: WriterView)
    requires
        c.streams.wf(),
        identifiers_in_range(c),
    ensures
        ({
            let sent = c.sends_flushed(out).0;
            &&& sent.streams.wf()
            &&& sent.streams.ids == c.streams.ids
            &&& sent.streams.streams.dom() == c.streams.streams.dom()
            &&& forall|other: u32| #[trigger] sent.streams.has(other) ==> 0 < other <= MAX_31_BIT
            &&& sent.pending_capacity == c.pending_capacity
            &&& sent.conn_recv_flow == c.conn_recv_flow
            &&& sent.conn_recv_target == c.conn_recv_target
        }),
{
    let start = ConnView { pending_sends: Seq::empty(), ..c };
    laws::lemma_items_evolve(start, out, c.pending_sends);
    lemma_items_keep(start, out, c.pending_sends, 0);
    let sent = c.sends_flushed(out).0;
    assert forall|other: u32| #[trigger] sent.streams.has(other) implies 0 < other
        <= MAX_31_BIT by {
        assert(c.streams.has(other));
    }
}

/// What goes out at the end of a batch are DATA and WINDOW_UPDATE frames, and nothing of it
/// waits in the buffer. The data of a stream goes out in order, and with what still waits makes
/// up what waited before, unless a failure was told. A stream of which enough was released gets
/// exactly one WINDOW_UPDATE, with what was released, and no other stream gets one; so does the
/// connection, once half of its target is used up.
pub proof fn lemma_flush_writes(c: ConnView, out: WriterView, gone: Seq<Ticket>, id: u32)
    requires
        c.wf(),
        send_laws::frame_size_is_valid(c),
        identifiers_in_range(c),
        c.conn_recv_target >= 0,
        id != 0,
        c.streams.has(id) ==> c.streams.streams[id].recv_flow.initial >= 0,
    ensures
        ({
            let (after, written) = c.flushed(out, gone);
            let given = c.streams.has(id) && release_is_due(c.streams.streams[id]);
            let missing = c.conn_recv_target - c.conn_recv_flow.window;
            let low = missing > 0 && missing >= c.conn_recv_target / 2;
            &&& exists|frames: Seq<RawFrame>| #[trigger]
                wire::wrote(out, written, frames) && flush_frames(
                    frames,
                    id,
                    if given {
                        seq![c.streams.streams[id].released as int]
                    } else {
                        Seq::empty()
                    },
                    if low {
                        seq![missing]
                    } else {
                        Seq::empty()
                    },
                ) && (no_failure_told(c, c.sends_flushed(out).0) ==> wire::data_on(frames, id)
                    + queued_on(after.pending_sends, id) == queued_on(c.pending_sends, id))
            &&& written.buf.len() == 0
        }),
{
    let start = ConnView { pending_sends: Seq::empty(), ..c };
    let (sent, out1) = c.sends_flushed(out);
    let items = c.pending_sends;
    let answered = sent.capacity_fulfilled(gone);
    let (c3, out3) = answered.connection_window_updated(out1);
    let due = c3.streams.due_updates();
    let n = due.len() as int;
    let out4 = c3.streams_updated(out3, due, n).1;
    assert(c.flushed(out, gone).1 == out4.flush() && c.flushed(out, gone).0.pending_sends
        == sent.pending_sends) by {
        reveal(ConnView::flushed);
        lemma_sending_keeps(c, out);
        lemma_due_updates(c3, id);
        lemma_updates_are_written(c3, out3, due, n, id);
        lemma_one_waiter_is_woken(c3.streams_updated(out3, due, n).0.closed_forgotten(), gone);
    }
    lemma_sending_keeps(c, out);
    assert forall|k: int| 0 <= k < items.len() implies (#[trigger] items[k]).stream_id
        <= MAX_31_BIT by {}
    let f1 = lemma_items_write(start, out, items, id);
    lemma_items_keep(start, out, items, id);
    lemma_connection_window_is_given_back(answered, out1);
    let missing = c.conn_recv_target - c.conn_recv_flow.window;
    let low = missing > 0 && missing >= c.conn_recv_target / 2;
    let f2 = if low {
        seq![wire::window_update(0, missing as u32)]
    } else {
        Seq::empty()
    };
    wire::lemma_wrote_nothing(out1);
    assert(wire::wrote(out1, out3, f2));
    lemma_due_updates(c3, id);
    lemma_due_updates(c3, 0);
    lemma_updates_are_written(c3, out3, due, n, id);
    let f3 = updates(c3, due, n);
    wire::lemma_wrote_on(out, out1, out3, f1, f2);
    wire::lemma_wrote_on(out, out3, out4, f1 + f2, f3);
    wire::lemma_wrote_nothing(out4);
    let frames = f1 + f2 + f3;
    wire::lemma_wrote_on(out, out4, out4.flush(), frames, Seq::empty());
    assert(frames + Seq::<RawFrame>::empty() =~= frames);
    assert(wire::wrote(out, c.flushed(out, gone).1, frames));
    lemma_three_parts(c3, f1, f2, due, low, missing as u32, id);
}

/// What the three parts of a flush come to.
proof fn lemma_three_parts(
    c: ConnView,
    f1: Seq<RawFrame>,
    f2: Seq<RawFrame>,
    due: Seq<u32>,
    low: bool,
    missing: u32,
    id: u32,
)
    requires
        forall|i: int| 0 <= i < f1.len() ==> (#[trigger] f1[i]).kind == 0,
        f2 == if low {
            seq![wire::window_update(0, missing)]
        } else {
            Seq::<RawFrame>::empty()
        },
        due.no_duplicates(),
        forall|i: int| 0 <= i < due.len() ==> (#[trigger] due[i]) > 0,
        id != 0,
    ensures
        ({
            let frames = f1 + f2 + updates(c, due, due.len() as int);
            &&& wire::data_on(frames, id) == wire::data_on(f1, id)
            &&& flush_frames(
                frames,
                id,
                if exists|k: int| 0 <= k < due.len() && due[k] == id {
                    seq![c.streams.streams[id].released as int]
                } else {
                    Seq::empty()
                },
                if low {
                    seq![missing as int]
                } else {
                    Seq::empty()
                },
            )
        }),
{
    let n = due.len() as int;
    let f3 = updates(c, due, n);
    let frames = f1 + f2 + f3;
    lemma_data_changes_no_window(f1, id);
    lemma_data_changes_no_window(f1, 0);
    lemma_single_update(f2, low, missing, id);
    lemma_updates_increment(c, due, n, id);
    lemma_updates_increment(c, due, n, 0);
    wire::lemma_data_on_adds(f1, f2, id);
    wire::lemma_data_on_adds(f1, f2, 0);
    wire::lemma_data_on_adds(f1 + f2, f3, id);
    wire::lemma_data_on_adds(f1 + f2, f3, 0);
    assert(wire::data_on(frames, id) =~= wire::data_on(f1, id));
    assert(wire::increments_on(frames, id) =~= wire::increments_on(f3, id));
    assert(!(exists|k: int| 0 <= k < due.len() && due[k] == 0));
    assert(wire::increments_on(frames, 0) =~= wire::increments_on(f2, 0));
    assert forall|k: int| 0 <= k < frames.len() implies (#[trigger] frames[k]).kind == 0
        || frames[k].kind == 8 by {
        if k < f1.len() {
            assert(frames[k] == f1[k]);
        } else if k < f1.len() + f2.len() {
            assert(frames[k] == f2[k - f1.len()]);
        } else {
            assert(frames[k] == f3[k - f1.len() - f2.len()]);
        }
    }
}

/// What the end of a batch does to the streams and to those who wait. Windows grow by what was
/// given back. Exactly the streams that are closed once the data has gone out are forgotten, and
/// whoever listens is told. Nothing that could go out still waits. Whoever waits for send
/// capacity is answered by the windows that sending left over.
pub proof fn lemma_flush_settles(
    c: ConnView,
    out: WriterView,
    gone: Seq<Ticket>,
    id: u32,
    i: int,
)
    requires
        c.wf(),
        identifiers_in_range(c),
        c.conn_recv_target >= 0,
        c.streams.has(id) ==> c.streams.streams[id].recv_flow.initial >= 0,
    ensures
        ({
            let after = c.flushed(out, gone).0;
            let sent = c.sends_flushed(out).0;
            let s = sent.streams.streams[id];
            let t = after.streams.streams[id];
            let given = c.streams.has(id) && release_is_due(c.streams.streams[id]);
            let missing = c.conn_recv_target - c.conn_recv_flow.window;
            let low = missing > 0 && missing >= c.conn_recv_target / 2;
            let p = c.pending_capacity[i];
            &&& after.conn_recv_flow.window == if low {
                c.conn_recv_target
            } else {
                c.conn_recv_flow.window
            }
            &&& after.streams.has(id) <==> c.streams.has(id) && s.state != StreamState::Closed
            &&& after.streams.has(id) ==> {
                &&& t.state == s.state
                &&& t.send_flow == s.send_flow
                &&& t.released == if given {
                    0
                } else {
                    s.released
                }
                &&& given && s.recv_flow.window + s.released <= MAX_31_BIT ==> t.recv_flow.window
                    == s.recv_flow.window + s.released
                &&& !given ==> t.recv_flow == s.recv_flow
            }
            &&& c.streams.has(id) && s.state == StreamState::Closed ==> after.events.contains(
                EventView::StreamGone { stream_id: id, reset: s.was_reset },
            )
            &&& 0 <= i < after.pending_sends.len() ==> {
                let other = after.pending_sends[i].stream_id;
                ||| after.conn_send_flow.window <= 0
                ||| !after.streams.has(other)
                ||| after.streams.streams[other].send_flow.window <= 0
            }
            &&& 0 <= i < c.pending_capacity.len() && !gone.contains(p.response_tx)
                ==> match send_laws::capacity_reply(sent, p) {
                Some(e) => after.events.contains(e),
                None => after.pending_capacity.contains(p),
            }
        }),
{
    let start = ConnView { pending_sends: Seq::empty(), ..c };
    let (sent, out1) = c.sends_flushed(out);
    let answered = sent.capacity_fulfilled(gone);
    let (c3, out3) = answered.connection_window_updated(out1);
    let due = c3.streams.due_updates();
    let n = due.len() as int;
    let c4 = c3.streams_updated(out3, due, n).0;
    let c5 = c4.closed_forgotten();
    let c6 = c5.waiter_woken(gone);
    assert(c.flushed(out, gone).0 == c6) by {
        reveal(ConnView::flushed);
    }
    lemma_sending_keeps(c, out);
    lemma_items_keep(start, out, c.pending_sends, id);
    lemma_connection_window_is_given_back(answered, out1);
    lemma_due_updates(c3, id);
    lemma_updates_are_written(c3, out3, due, n, id);
    laws::lemma_updates_evolve(c3, out3, due, n);
    assert(c4.streams.wf());
    lemma_only_closed_streams_are_forgotten(c4, id);
    lemma_one_waiter_is_woken(c5, gone);
    lemma_woken_keeps_events(c5, gone);
    if c.streams.has(id) && sent.streams.streams[id].state is Closed {
        laws::lemma_forgotten_streams_are_told(c4, id);
        lemma_kept_event(
            c5.events,
            c6.events,
            EventView::StreamGone { stream_id: id, reset: sent.streams.streams[id].was_reset },
        );
    }
    if 0 <= i < c6.pending_sends.len() {
        lemma_flush_leaves_nothing_sendable(c, out, i);
        let other = c6.pending_sends[i].stream_id;
        lemma_due_updates(c3, other);
        lemma_updates_are_written(c3, out3, due, n, other);
        lemma_only_closed_streams_are_forgotten(c4, other);
    }
    if 0 <= i < c.pending_capacity.len() && !gone.contains(c.pending_capacity[i].response_tx) {
        let p = c.pending_capacity[i];
        lemma_waiting_capacity_is_answered(sent, gone, i);
        if let Some(e) = send_laws::capacity_reply(sent, p) {
            let rest = answered.events.skip(sent.events.len() as int);
            let k = rest.index_of(e);
            assert(answered.events[sent.events.len() + k] == e);
            lemma_kept_event(c4.events, c5.events, e);
            lemma_kept_event(c5.events, c6.events, e);
        }
    }
}

/// Whether the frames of a flush are DATA and WINDOW_UPDATE, of which those for a stream, and
/// those for the connection, have the given increments.
pub open spec fn flush_frames(
    frames: Seq<RawFrame>,
    id: u32,
    increments: Seq<int>,
    for_connection: Seq<int>,
) -> bool {
    &&& wire::increments_on(frames, id) == increments
    &&& wire::increments_on(frames, 0) == for_connection
    &&& forall|i: int|
        0 <= i < frames.len() ==> (#[trigger] frames[i]).kind == 0 || frames[i].kind == 8
}

proof fn lemma_single_update(frames: Seq<RawFrame>, given: bool, n: u32, id: u32)
    requires
        frames == if given {
            seq![wire::window_update(0, n)]
        } else {
            Seq::<RawFrame>::empty()
        },
        id != 0,
    ensures
        wire::increments_on(frames, 0) == if given {
            seq![n as int]
        } else {
            Seq::<int>::empty()
        },
        wire::increments_on(frames, id) == Seq::<int>::empty(),
        wire::data_on(frames, id) == Seq::<u8>::empty(),
{
    wire::lemma_numbers_read_back(n);
    reveal_with_fuel(wire::increments_on, 2);
    reveal_with_fuel(wire::data_on, 2);
    if given {
        assert(frames.drop_last() =~= Seq::<RawFrame>::empty());
        assert(wire::increments_on(frames, 0) =~= seq![n as int]);
        assert(wire::increments_on(frames, id) =~= Seq::<int>::empty());
        assert(wire::data_on(frames, id) =~= Seq::<u8>::empty());
    }
}

/// Nobody waits for a stream after a flush who did not before.
pub(crate) proof fn lemma_no_waiter_appears(c: ConnView, out: WriterView, gone: Seq<Ticket>)
    ensures
        c.ready_waiters.len() == 0 ==> c.flushed(out, gone).0.ready_waiters.len() == 0,
{
    reveal(ConnView::flushed);
    let start = ConnView { pending_sends: Seq::empty(), ..c };
    lemma_items_keep(start, out, c.pending_sends, 0);
    let (sent, out1) = c.sends_flushed(out);
    let (c3, out3) = sent.capacity_fulfilled(gone).connection_window_updated(out1);
    let due = c3.streams.due_updates();
    lemma_updates_keep_waiters(c3, out3, due, due.len() as int);
}

proof fn lemma_updates_keep_waiters(c: ConnView, out: WriterView, due: Seq<u32>, n: int)
    ensures
        c.streams_updated(out, due, n).0.ready_waiters == c.ready_waiters,
    decreases n,
{
    if n > 0 {
        lemma_updates_keep_waiters(c, out, due, n - 1);
    }
}

proof fn lemma_woken_keeps_events(c: ConnView, gone: Seq<Ticket>)
    ensures
        c.waiter_woken(gone).events.len() >= c.events.len(),
        c.waiter_woken(gone).events.take(c.events.len() as int) == c.events,
{
    assert(c.waiter_woken(gone).events.take(c.events.len() as int) =~= c.events);
}

proof fn lemma_kept_event(before: Seq<EventView>, after: Seq<EventView>, e: EventView)
    requires
        before.contains(e),
        after.len() >= before.len(),
        after.take(before.len() as int) == before,
    ensures
        after.contains(e),
{
    let k = before.index_of(e);
    assert(after.take(before.len() as int)[k] == after[k]);
    assert(after[k] == e);
}

} // verus!
