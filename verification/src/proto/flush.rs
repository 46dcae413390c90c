//! What a connection does after a batch of messages: it sends what now may be sent,
//! gives back receive windows, and forgets closed streams.

use crate::codec::writer::{FrameWriter, WriterView};
use crate::error::Reason;
use crate::frame::control::WindowUpdateView;
use crate::frame::{Frame, StreamId, WindowUpdate};
use crate::proto::connection;
use crate::proto::connection::{
    CapacityView, ConnState, ConnView, PendingCapacity, PendingSend, PendingView,
};
use crate::proto::events;
use crate::proto::events::{Event, EventView, Ticket};
use crate::proto::flow_control;
use crate::proto::flow_control::FlowControl;
use crate::proto::send;
use crate::proto::send::{OutcomeView, SendOutcome};
use crate::proto::streams;
use vstd::prelude::*;

verus! {

/// What a connection does with the data that waits to be sent.
#[verifier::ext_equal]
pub struct FlushStep {
    /// The state afterwards.
    pub conn: ConnView,
    /// The writer afterwards.
    pub out: WriterView,
    /// What still waits.
    pub left: Seq<PendingView>,
}

/// A WINDOW_UPDATE frame on the wire.
pub open spec fn update_bytes(id: u32, increment: u32) -> Seq<u8> {
    (WindowUpdateView { stream_id: id, size_increment: increment }).bytes()
}

impl ConnView {
    /// Each of `items` is sent as far as the windows allow, in order.
    pub open spec fn items_sent(self, out: WriterView, items: Seq<PendingView>) -> FlushStep
        decreases items.len(),
    {
        if items.len() == 0 {
            FlushStep { conn: self, out, left: Seq::empty() }
        } else {
            let step = self.send_tried(out, items[0]);
            let rest = step.conn.items_sent(step.out, items.drop_first());
            FlushStep {
                left: match step.outcome {
                    OutcomeView::Queued(p) => seq![p] + rest.left,
                    _ => rest.left,
                },
                ..rest
            }
        }
    }

    /// What waits to be sent is sent as far as the windows allow.
    pub open spec fn sends_flushed(self, out: WriterView) -> (ConnView, WriterView) {
        let step = ConnView { pending_sends: Seq::empty(), ..self }.items_sent(
            out,
            self.pending_sends,
        );
        (ConnView { pending_sends: step.left, ..step.conn }, step.out)
    }

    /// Those who wait for send capacity, and are still there, are answered where there is
    /// something to say.
    pub open spec fn capacity_fulfilled(self, gone: Seq<Ticket>) -> ConnView {
        ConnView {
            pending_capacity: self.pending_capacity.filter(
                |p: CapacityView|
                    !gone.contains(p.response_tx) && self.capacity_answer(
                        p.stream_id,
                        p.amount,
                    ) is Wait,
            ),
            events: self.events + self.pending_capacity.filter(
                |p: CapacityView|
                    !gone.contains(p.response_tx) && !(self.capacity_answer(
                        p.stream_id,
                        p.amount,
                    ) is Wait),
            ).map_values(
                |p: CapacityView|
                    self.capacity_answer(p.stream_id, p.amount).told_to(p.response_tx),
            ),
            ..self
        }
    }

    /// What is missing to the target of the connection's receive window.
    pub open spec fn recv_shortfall(self) -> int {
        self.conn_recv_target - self.conn_recv_flow.window
    }

    /// Whether the peer is to get back what it has used of the connection's receive window:
    /// half of the target is used up.
    pub open spec fn recv_window_is_low(self) -> bool {
        &&& self.recv_shortfall() > 0
        &&& self.recv_shortfall() >= flow_control::half(self.conn_recv_target)
    }

    /// The connection's receive window is brought back to its target, once it is low.
    pub open spec fn connection_window_updated(self, out: WriterView) -> (ConnView, WriterView) {
        if self.recv_window_is_low() {
            (
                ConnView {
                    conn_recv_flow: FlowControl {
                        window: self.conn_recv_target,
                        ..self.conn_recv_flow
                    },
                    conn_recv_consumed: 0,
                    ..self
                },
                out.frame(update_bytes(0, self.recv_shortfall() as u32)),
            )
        } else {
            (self, out)
        }
    }

    /// The peer gets back what was released of the first `n` streams of `due`.
    pub open spec fn streams_updated(self, out: WriterView, due: Seq<u32>, n: int) -> (
        ConnView,
        WriterView,
    )
        decreases n,
    {
        if n <= 0 {
            (self, out)
        } else {
            let (c, out) = self.streams_updated(out, due, n - 1);
            let id = due[n - 1];
            let increment = self.streams.streams[id].released;
            (
                c.with_stream(id, c.streams.streams[id].window_updated(increment)),
                out.frame(update_bytes(id, increment)),
            )
        }
    }

    /// Closed streams are forgotten, which whoever still listens is told.
    pub open spec fn closed_forgotten(self) -> ConnView {
        ConnView {
            streams: self.streams.collected(),
            events: self.events + self.streams.closed_ids().map_values(
                |id: u32|
                    EventView::StreamGone {
                        stream_id: id,
                        reset: self.streams.streams[id].was_reset,
                    },
            ),
            ..self
        }
    }

    /// If one more stream can be opened, the last of those who wait for that and are
    /// still there is told. On a connection that is going away none can, and all are told
    /// so.
    pub open spec fn waiter_woken(self, gone: Seq<Ticket>) -> ConnView {
        if self.going_away {
            self.waiters_drained(Reason::RefusedStream)
        } else if !self.streams.can_accept() {
            self
        } else {
            let (rest, woken) = last_present(self.ready_waiters, gone);
            let c = ConnView { ready_waiters: rest, ..self };
            match woken {
                Some(t) => c.told_done(t, Ok(())),
                None => c,
            }
        }
    }

    /// The end of a batch of messages.
    #[verifier::opaque]
    pub open spec fn flushed(self, out: WriterView, gone: Seq<Ticket>) -> (ConnView, WriterView) {
        let (c, out) = self.sends_flushed(out);
        let (c, out) = c.capacity_fulfilled(gone).connection_window_updated(out);
        let due = c.streams.due_updates();
        let (c, out) = c.streams_updated(out, due, due.len() as int);
        (c.closed_forgotten().waiter_woken(gone), out.flush())
    }
}

/// The last of the waiters who is not gone, and those before.
pub open spec fn last_present(waiters: Seq<Ticket>, gone: Seq<Ticket>) -> (
    Seq<Ticket>,
    Option<Ticket>,
)
    decreases waiters.len(),
{
    if waiters.len() == 0 {
        (waiters, None)
    } else if gone.contains(waiters.last()) {
        last_present(waiters.drop_last(), gone)
    } else {
        (waiters.drop_last(), Some(waiters.last()))
    }
}

proof fn lemma_total_split(s: Seq<PendingView>, i: int)
    requires
        0 <= i < s.len(),
    ensures
        connection::total(s.skip(i)) == s[i].data.len() + connection::total(s.skip(i + 1)),
{
    assert(s.skip(i).drop_first() =~= s.skip(i + 1));
}

proof fn lemma_left_counts(c: ConnView, out: WriterView, items: Seq<PendingView>)
    requires
        connection::total(items) <= c.pending_send_bytes,
    ensures
        ({
            let step = c.items_sent(out, items);
            &&& connection::total(step.left) <= connection::total(items)
            &&& step.conn.pending_send_bytes == c.pending_send_bytes - connection::total(items)
                + connection::total(step.left)
            &&& step.conn.max_send_buffer_size == c.max_send_buffer_size
        }),
    decreases items.len(),
{
    if items.len() > 0 {
        let step = c.send_tried(out, items[0]);
        send::lemma_send_tried_counts(c, out, items[0]);
        lemma_left_counts(step.conn, step.out, items.drop_first());
        let rest = step.conn.items_sent(step.out, items.drop_first());
        if let OutcomeView::Queued(p) = step.outcome {
            assert((seq![p] + rest.left).drop_first() =~= rest.left);
        }
    }
}

impl ConnState {
    /// Try to flush pending sends that are now within flow control limits.
    pub fn flush_pending_sends<W>(&mut self, writer: &mut FrameWriter<W>)
        requires
            old(self)@.wf(),
        ensures
            final(writer).spec_transport() == old(writer).spec_transport(),
            (final(self)@, final(writer)@) == old(self)@.sends_flushed(old(writer)@),
            final(self)@.wf(),
    {
        let mut pending: Vec<PendingSend> = Vec::new();
        core::mem::swap(&mut pending, &mut self.pending_sends);
        let ghost items = old(self)@.pending_sends;
        let ghost start = ConnView { pending_sends: Seq::empty(), ..old(self)@ };
        let ghost out = writer@;
        let ghost goal = start.items_sent(out, items);
        proof {
            assert(connection::pending_views(pending@) == items);
            assert(self@ =~= start);
            lemma_left_counts(start, out, items);
            assert(items.skip(0) =~= items);
        }
        let mut left: Vec<PendingSend> = Vec::new();
        let ghost mut at: int = 0;
        assert(connection::pending_views(left@) + self@.items_sent(writer@, items.skip(0)).left
            =~= goal.left);
        while pending.len() > 0
            invariant
                writer.spec_transport() == old(writer).spec_transport(),
                0 <= at <= items.len(),
                connection::pending_views(pending@) == items.skip(at),
                self@.base_wf(),
                self@.pending_sends == Seq::<PendingView>::empty(),
                connection::total(items.skip(at)) <= self@.pending_send_bytes,
                ({
                    let rest = self@.items_sent(writer@, items.skip(at));
                    &&& rest.conn == goal.conn
                    &&& rest.out == goal.out
                    &&& connection::pending_views(left@) + rest.left == goal.left
                }),
            decreases pending.len(),
        {
            let ghost before = pending@;
            let ghost kept = left@;
            let item = pending.remove(0);
            proof {
                assert(connection::pending_views(before)[0] == item@);
                assert(items.skip(at)[0] == item@);
                assert(connection::pending_views(pending@) =~= connection::pending_views(
                    before,
                ).drop_first());
                assert(items.skip(at).drop_first() =~= items.skip(at + 1));
                lemma_total_split(items, at);
                send::lemma_send_tried_counts(self@, writer@, item@);
            }
            match self.try_send_or_queue(item, writer) {
                SendOutcome::Sent | SendOutcome::Errored => {},
                SendOutcome::Queued(p) => {
                    left.push(p);
                    proof {
                        let rest = self@.items_sent(writer@, items.skip(at + 1));
                        assert(connection::pending_views(left@) + rest.left
                            =~= connection::pending_views(kept) + (seq![p@] + rest.left));
                    }
                },
            }
            proof {
                at = at + 1;
            }
        }
        proof {
            assert(items.skip(at).len() == 0) by {
                assert(connection::pending_views(pending@).len() == 0);
            }
            assert(connection::pending_views(left@) + Seq::<PendingView>::empty()
                =~= connection::pending_views(left@));
        }
        self.pending_sends = left;
        assert(self@ =~= (ConnView { pending_sends: goal.left, ..goal.conn }));
    }
}

impl ConnState {
    /// Try to fulfill pending capacity reservations from available flow
    /// control. Those who are `gone` no longer wait for an answer.
    pub fn fulfill_pending_capacity(&mut self, gone: &[Ticket])
        requires
            old(self)@.wf(),
        ensures
            final(self)@ == old(self)@.capacity_fulfilled(gone@),
            final(self)@.wf(),
    {
        let mut pending: Vec<PendingCapacity> = Vec::new();
        core::mem::swap(&mut pending, &mut self.pending_capacity);
        let ghost start = old(self)@;
        let ghost all = start.pending_capacity;
        let ghost waits = |p: CapacityView|
            !gone@.contains(p.response_tx) && start.capacity_answer(p.stream_id, p.amount) is Wait;
        let ghost told = |p: CapacityView|
            !gone@.contains(p.response_tx) && !(start.capacity_answer(
                p.stream_id,
                p.amount,
            ) is Wait);
        let ghost answer = |p: CapacityView|
            start.capacity_answer(p.stream_id, p.amount).told_to(p.response_tx);
        let mut left: Vec<PendingCapacity> = Vec::new();
        let mut i: usize = 0;
        proof {
            assert(connection::capacity_views(pending@) == all);
            assert(all.take(0) =~= Seq::empty());
            reveal(Seq::filter);
            assert(all.take(0).filter(waits) =~= Seq::empty());
            assert(all.take(0).filter(told) =~= Seq::empty());
            assert(connection::capacity_views(left@) =~= Seq::empty());
            assert(start.events + all.take(0).filter(told).map_values(answer) =~= start.events);
            assert(self@ =~= (ConnView { pending_capacity: Seq::empty(), ..start }));
        }
        while i < pending.len()
            invariant
                start.wf(),
                all == start.pending_capacity,
                connection::capacity_views(pending@) == all,
                waits == (|p: CapacityView|
                    !gone@.contains(p.response_tx) && start.capacity_answer(
                        p.stream_id,
                        p.amount,
                    ) is Wait),
                told == (|p: CapacityView|
                    !gone@.contains(p.response_tx) && !(start.capacity_answer(
                        p.stream_id,
                        p.amount,
                    ) is Wait)),
                answer == (|p: CapacityView|
                    start.capacity_answer(p.stream_id, p.amount).told_to(p.response_tx)),
                i <= pending@.len(),
                pending@.len() == all.len(),
                connection::capacity_views(left@) == all.take(i as int).filter(waits),
                self@ == (ConnView {
                    pending_capacity: Seq::empty(),
                    events: start.events + all.take(i as int).filter(told).map_values(answer),
                    ..start
                }),
            decreases pending@.len() - i,
        {
            let item: PendingCapacity = pending[i];
            let ghost kept = left@;
            let ghost already = all.take(i as int).filter(told);
            proof {
                assert(all[i as int] == item@);
                streams::lemma_filter_take(all, i as int, waits);
                streams::lemma_filter_take(all, i as int, told);
            }
            // Those who are gone need no answer
            if !events::is_among(gone, item.response_tx) {
                match self.capacity_for(&item.stream_id, item.amount) {
                    Some((amount, reset)) => {
                        self.emit(Event::Granted { ticket: item.response_tx, amount, reset });
                        proof {
                            assert(already.push(item@).map_values(answer) =~= already.map_values(
                                answer,
                            ).push(answer(item@)));
                            assert(start.events + already.push(item@).map_values(answer) =~= (
                            start.events + already.map_values(answer)).push(answer(item@)));
                        }
                    },
                    None => {
                        left.push(item);
                        assert(connection::capacity_views(left@) =~= connection::capacity_views(
                            kept,
                        ).push(item@));
                    },
                }
            }
            i = i + 1;
        }
        self.pending_capacity = left;
        proof {
            assert(all.take(i as int) =~= all);
            assert(self@ =~= start.capacity_fulfilled(gone@));
        }
    }

    /// Send connection-level WINDOW_UPDATE once half of the target window is used up.
    fn send_connection_window_update<W>(&mut self, writer: &mut FrameWriter<W>)
        requires
            old(self)@.wf(),
        ensures
            final(writer).spec_transport() == old(writer).spec_transport(),
            (final(self)@, final(writer)@) == old(self)@.connection_window_updated(old(writer)@),
            final(self)@.wf(),
    {
        let target: i32 = self.conn_recv_target;
        let shortfall: i64 = target as i64 - self.conn_recv_flow.window_size() as i64;
        if shortfall > 0 && shortfall >= flow_control::half_of(target) as i64 {
            let increment: u32 = shortfall as u32;
            let wu = WindowUpdate::new(StreamId::zero(), increment);
            writer.write_frame(&Frame::WindowUpdate(wu));
            // Up to the target the window stays in range
            let _ = self.conn_recv_flow.release(increment);
            self.conn_recv_consumed = 0;
        }
    }

    /// Send stream-level WINDOW_UPDATEs for streams with released capacity.
    pub fn send_stream_window_updates<W>(&mut self, writer: &mut FrameWriter<W>)
        requires
            old(self)@.wf(),
        ensures
            final(writer).spec_transport() == old(writer).spec_transport(),
            ({
                let due = old(self)@.streams.due_updates();
                (final(self)@, final(writer)@) == old(self)@.streams_updated(
                    old(writer)@,
                    due,
                    due.len() as int,
                )
            }),
            final(self)@.wf(),
    {
        let updates: Vec<(StreamId, u32)> = self.streams.streams_needing_window_update();
        let ghost start = old(self)@;
        let ghost due = start.streams.due_updates();
        assert(forall|j: int|
            0 <= j < updates@.len() ==> (#[trigger] updates@[j]).0@ == due[j]
                && start.streams.has(due[j])) by {
            assert(updates@.map_values(|u: (StreamId, u32)| u.0@) =~= due);
            assert forall|j: int| 0 <= j < updates@.len() implies (#[trigger] updates@[j]).0@
                == due[j] && start.streams.has(due[j]) by {
                let f = |id: u32| start.streams.streams[id].needs_window_update();
                assert(due.contains(due[j]));
                streams::lemma_filter_contains(start.streams.ids, f, due[j]);
            }
        }
        let mut i: usize = 0;
        while i < updates.len()
            invariant
                writer.spec_transport() == old(writer).spec_transport(),
                start.wf(),
                self@.wf(),
                self@.streams.ids == start.streams.ids,
                updates@.len() == due.len(),
                forall|j: int|
                    0 <= j < updates@.len() ==> (#[trigger] updates@[j]).0@ == due[j]
                        && start.streams.has(due[j]),
                forall|j: int|
                    0 <= j < updates@.len() ==> (#[trigger] updates@[j]).1
                        == start.streams.streams[updates@[j].0@].released,
                i <= updates@.len(),
                (self@, writer@) == start.streams_updated(old(writer)@, due, i as int),
            decreases updates@.len() - i,
        {
            let (stream_id, increment): (StreamId, u32) = updates[i];
            assert(updates@[i as int] == (stream_id, increment));
            let wu = WindowUpdate::new(stream_id, increment);
            writer.write_frame(&Frame::WindowUpdate(wu));
            self.streams.reset_released(&stream_id, increment);
            i = i + 1;
        }
    }

    /// Garbage-collect closed streams.
    fn forget_closed(&mut self)
        requires
            old(self)@.wf(),
        ensures
            final(self)@ == old(self)@.closed_forgotten(),
            final(self)@.wf(),
    {
        let ghost start = self@;
        let ghost gone_event = |id: u32|
            EventView::StreamGone { stream_id: id, reset: start.streams.streams[id].was_reset };
        let gone: Vec<(StreamId, bool)> = self.streams.gc_closed();
        let ghost ids = start.streams.closed_ids();
        let ghost collected = self@;
        assert(forall|j: int| 0 <= j < gone@.len() ==> (#[trigger] gone@[j]).0@ == ids[j]) by {
            assert(gone@.map_values(|g: (StreamId, bool)| g.0@) =~= ids);
        }
        let mut i: usize = 0;
        assert(start.events + ids.take(0).map_values(gone_event) =~= start.events);
        while i < gone.len()
            invariant
                collected == (ConnView { streams: start.streams.collected(), ..start }),
                gone_event == (|id: u32|
                    EventView::StreamGone {
                        stream_id: id,
                        reset: start.streams.streams[id].was_reset,
                    }),
                gone@.len() == ids.len(),
                forall|j: int| 0 <= j < gone@.len() ==> (#[trigger] gone@[j]).0@ == ids[j],
                forall|j: int|
                    0 <= j < gone@.len() ==> (#[trigger] gone@[j]).1
                        == start.streams.streams[gone@[j].0@].was_reset,
                i <= gone@.len(),
                self@ == (ConnView {
                    events: start.events + ids.take(i as int).map_values(gone_event),
                    ..collected
                }),
            decreases gone@.len() - i,
        {
            let (stream_id, reset): (StreamId, bool) = gone[i];
            assert(gone@[i as int] == (stream_id, reset));
            self.emit(Event::StreamGone { stream_id, reset });
            proof {
                assert(start.events + ids.take(i + 1).map_values(gone_event) =~= (start.events
                    + ids.take(i as int).map_values(gone_event)).push(gone_event(ids[i as int])));
            }
            i = i + 1;
        }
        assert(ids.take(i as int) =~= ids);
        assert(self@ =~= start.closed_forgotten());
    }

    /// Wake one ready waiter if stream capacity is available, or all of them with an error
    /// if the connection is going away. Those who are `gone` no longer wait.
    pub fn notify_ready_waiters(&mut self, gone: &[Ticket])
        requires
            old(self)@.wf(),
        ensures
            final(self)@ == old(self)@.waiter_woken(gone@),
            final(self)@.wf(),
    {
        if self.going_away {
            self.drain_ready_waiters(Reason::RefusedStream);
            return;
        }
        if !self.streams.can_accept_stream() {
            return;
        }
        let ghost goal = last_present(self@.ready_waiters, gone@);
        loop
            invariant
                self@ == (ConnView { ready_waiters: self@.ready_waiters, ..old(self)@ }),
                old(self)@.wf(),
                !old(self)@.going_away,
                old(self)@.streams.can_accept(),
                goal == last_present(old(self)@.ready_waiters, gone@),
                goal == last_present(self@.ready_waiters, gone@),
            decreases self.ready_waiters@.len(),
        {
            match self.ready_waiters.pop() {
                Some(t) => {
                    // If the receiver is gone, try next waiter
                    if !events::is_among(gone, t) {
                        self.answer(t, Ok(()));
                        return;
                    }
                },
                None => {
                    return;
                },
            }
        }
    }

    /// Flush pending data, send window updates, fulfill capacity reservations,
    /// flush the write buffer, and GC.
    pub fn flush_all<W>(&mut self, gone: &[Ticket], writer: &mut FrameWriter<W>)
        requires
            old(self)@.wf(),
        ensures
            final(writer).spec_transport() == old(writer).spec_transport(),
            (final(self)@, final(writer)@) == old(self)@.flushed(old(writer)@, gone@),
            final(self)@.wf(),
    {
        reveal(ConnView::flushed);
        // Flush pending sends that may now fit in flow control windows
        self.flush_pending_sends(writer);
        self.fulfill_pending_capacity(gone);
        self.send_connection_window_update(writer);
        self.send_stream_window_updates(writer);
        writer.flush_buf();
        self.forget_closed();
        // Stream capacity may have freed up
        self.notify_ready_waiters(gone);
    }
}

} // verus!
