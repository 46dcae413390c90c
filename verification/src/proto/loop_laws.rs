//! How a connection starts, what it makes of messages, and when it flushes and ends, seen from
//! outside.

use crate::codec::writer;
use crate::codec::writer::WriterView;
use crate::error::{ErrorView, FrameErrorView, Reason};
use crate::frame::wire;
use crate::frame::wire::RawFrame;
use crate::frame::{FrameView, MAX_31_BIT};
use crate::proto::connection::{ConnConfig, ConnView};
use crate::proto::event_loop;
use crate::proto::event_loop::{ActionView, NextView};
use crate::proto::events::{CommandView, EventView, JobView, MsgView, Ticket};
use crate::proto::flush_laws;
use crate::proto::headers::FieldView;
use crate::proto::laws;
use crate::proto::recv_laws;
use crate::proto::settings::{ConnSettings, SyncState};
use crate::proto::streams;
use crate::proto::streams::{StoreView, Stream, StreamState};
use vstd::prelude::*;

verus! {

/// The first thing that an end sends, behind the opening bytes of a client, are its settings;
/// if its connection window is to be larger than the one that every connection starts with, a
/// WINDOW_UPDATE for the difference follows, and nothing else.
pub proof fn lemma_start_is_announced(config: ConnConfig, out: WriterView, opening: Seq<u8>)
    ensures
        out.chunk(opening).wire() == out.wire() + opening,
        ({
            let written = event_loop::started_out(config, out);
            exists|payload: Seq<u8>| #[trigger]
                wire::read_parameters(payload) == recv_laws::announcement(config.settings.local)
                    && wire::wrote(
                    out,
                    written,
                    seq![RawFrame { kind: 4, flags: 0, stream_id: 0, payload }]
                        + match config.initial_connection_window_size {
                        Some(size) => if size > 65_535 {
                            seq![wire::window_update(0, (size - 65_535) as u32)]
                        } else {
                            Seq::empty()
                        },
                        None => Seq::empty(),
                    },
                )
        }),
{
    writer::lemma_wire_keeps_order(out, opening, Seq::empty(), Seq::empty());
    let local = config.settings.local;
    let payload = local.announced().payload();
    recv_laws::lemma_announcement_is_written(out, local);
    let next = out.frame(local.announced().bytes());
    let first = seq![RawFrame { kind: 4, flags: 0, stream_id: 0, payload }];
    assert(wire::read_parameters(payload) == recv_laws::announcement(local));
    match config.initial_connection_window_size {
        Some(size) if size > 65_535 => {
            let n = (size - 65_535) as u32;
            wire::lemma_wrote_control(next, 0, n, Seq::new(8, |i: int| 0u8));
            wire::lemma_wrote_on(
                out,
                next,
                event_loop::started_out(config, out),
                first,
                seq![wire::window_update(0, n)],
            );
        },
        _ => {
            assert(first + Seq::<RawFrame>::empty() =~= first);
        },
    }
}

/// A connection starts without streams and with nothing to send or to tell, by the settings that
/// it was given; its own are not acknowledged yet. It may send what every connection may at
/// first, and receive what it was configured for. A server holds the peer to its own limit on
/// streams; a client knows of none yet.
pub proof fn lemma_start_follows_the_configuration(config: ConnConfig, is_client: bool)
    requires
        config.initial_connection_window_size matches Some(size) ==> size <= MAX_31_BIT,
    ensures
        ({
            let c = event_loop::started_conn(config, is_client, !is_client);
            let window: int = match config.initial_connection_window_size {
                Some(size) => size as int,
                None => 65_535,
            };
            &&& c.is_client == is_client
            &&& c.has_incoming == !is_client
            &&& !c.going_away
            &&& c.last_peer_stream_id == 0
            &&& c.settings == ConnSettings {
                local: config.settings.local,
                remote: config.settings.remote,
                sync: SyncState::WaitingAck { queued: false },
            }
            &&& c.conn_send_flow.window == 65_535
            &&& c.conn_recv_flow.window == window
            &&& c.conn_recv_target == window
            &&& c.conn_recv_consumed == 0
            &&& c.streams.ids.len() == 0
            &&& forall|id: u32| !(#[trigger] c.streams.has(id))
            &&& c.streams.next_id == if is_client {
                1u32
            } else {
                2
            }
            &&& c.streams.max_concurrent == if is_client {
                u32::MAX
            } else {
                config.settings.local.max_concurrent_streams
            }
            &&& c.streams.resets.len() == 0
            &&& c.streams.max_resets == match config.extra.max_concurrent_reset_streams {
                Some(n) => n,
                None => 50,
            }
            &&& c.streams.reset_window == match config.extra.reset_stream_duration {
                Some(n) => n,
                None => 1_000_000_000,
            }
            &&& c.max_send_buffer_size == match config.extra.max_send_buffer_size {
                Some(n) => n,
                None => 409_600,
            }
            &&& c.pending_sends.len() == 0 && c.pending_send_bytes == 0
            &&& c.ready_waiters.len() == 0 && c.pending_capacity.len() == 0
            &&& c.events.len() == 0
            &&& c.ping_pong == config.ping_pong@
        }),
{
}

/// What the application releases of a stream is added to what it released before, on that stream
/// and no other, and nothing goes out yet. On a stream that is forgotten it comes to nothing.
pub proof fn lemma_release_is_added(
    c: ConnView,
    out: WriterView,
    id: u32,
    amount: u32,
    decoded: Result<Seq<FieldView>, ErrorView>,
    now: u128,
)
    ensures
        ({
            let step = c.message_received(
                out,
                MsgView::ReleaseCapacity { stream_id: id, amount },
                decoded,
                now,
            );
            let s = c.streams.streams[id];
            let t = step.conn.streams.streams[id];
            &&& step.out == out
            &&& step.next == Ok::<NextView, ErrorView>(NextView::Continue)
            &&& c.streams.has(id) ==> {
                &&& s.released + amount <= u32::MAX ==> t.released == s.released + amount
                &&& s.released + amount > u32::MAX ==> t.released == u32::MAX
                &&& t == Stream { released: t.released, ..s }
                &&& step.conn.events == c.events
                &&& recv_laws::only_stream(c, step.conn, id)
            }
            &&& !c.streams.has(id) ==> step.conn == c
        }),
{
    reveal(ConnView::message_received);
}

/// Frames and commands do what is said of them. A command that needs a header list compressed
/// asks for that next; any other message is followed by the next one. The end of the input stops
/// the connection. A failure of the reader fails it, with the error itself where that has a
/// reason, and otherwise with the reason for what went wrong.
pub proof fn lemma_messages_are_dispatched(
    c: ConnView,
    out: WriterView,
    f: FrameView,
    cmd: CommandView,
    e: ErrorView,
    decoded: Result<Seq<FieldView>, ErrorView>,
    now: u128,
)
    ensures
        ({
            let step = c.message_received(out, MsgView::Frame(f), decoded, now);
            let by_itself = c.frame_received(out, f, decoded, now);
            &&& step.conn == by_itself.conn && step.out == by_itself.out
            &&& by_itself.result is Ok ==> step.next == Ok::<NextView, ErrorView>(
                NextView::Continue,
            )
            &&& by_itself.result matches Err(why) ==> step.next == Err::<NextView, ErrorView>(why)
        }),
        ({
            let step = c.message_received(out, MsgView::Cmd(cmd), decoded, now);
            let by_itself = c.command_received(out, cmd);
            &&& step.conn == by_itself.conn && step.out == by_itself.out
            &&& step.next == Ok::<NextView, ErrorView>(
                match by_itself.job {
                    Some(job) => NextView::Encode(job),
                    None => NextView::Continue,
                },
            )
        }),
        ({
            let step = c.message_received(out, MsgView::Eof, decoded, now);
            &&& step.conn == c && step.out == out
            &&& step.next == Ok::<NextView, ErrorView>(NextView::Stop)
        }),
        ({
            let step = c.message_received(out, MsgView::ReadError(e), decoded, now);
            &&& step.conn == c && step.out == out
            &&& step.next matches Err(why) && (e.reason() is Some ==> why == e) && (e.reason()
                is None ==> why is ConnectionError && why.reason() == Some(
                match e {
                    ErrorView::Frame(FrameErrorView::InvalidFrameSize(_)) => Reason::FrameSizeError,
                    ErrorView::Frame(
                        FrameErrorView::FlowControlError(_),
                    ) => Reason::FlowControlError,
                    ErrorView::HpackDecode(_) => Reason::CompressionError,
                    ErrorView::Hpack(_) => Reason::CompressionError,
                    _ => Reason::ProtocolError,
                },
            ))
        }),
{
    reveal(ConnView::message_received);
}

/// A failure ends the connection, with its error. The peer is told by one GOAWAY, with the reason
/// and the last stream that was taken, unless it was told before that the connection goes away;
/// nothing else goes out, and nothing waits in the buffer.
pub proof fn lemma_failure_is_told_to_the_peer(
    handled: nat,
    c: ConnView,
    out: WriterView,
    msg: MsgView,
    decoded: Result<Seq<FieldView>, ErrorView>,
    now: u128,
    gone: Seq<Ticket>,
)
    requires
        c.message_received(out, msg, decoded, now).next is Err,
        c.message_received(out, msg, decoded, now).conn.last_peer_stream_id <= MAX_31_BIT,
    ensures
        ({
            let step = c.message_received(out, msg, decoded, now);
            let e = step.next->Err_0;
            let turn = event_loop::message_taken(handled, c, out, msg, decoded, now, gone);
            &&& turn.conn == step.conn
            &&& turn.action == (ActionView::Failed { error: e, shut_down: e.reason() is Some })
            &&& e.reason() is None ==> turn.out == step.out
            &&& e.reason() is Some ==> turn.out.buf.len() == 0 && wire::wrote(
                step.out,
                turn.out,
                if step.conn.going_away {
                    Seq::empty()
                } else {
                    seq![
                        wire::goaway(step.conn.last_peer_stream_id, e.reason()->0.spec_code()),
                    ]
                },
            )
        }),
{
    let step = c.message_received(out, msg, decoded, now);
    let e = step.next->Err_0;
    if let Some(reason) = e.reason() {
        let last = step.conn.last_peer_stream_id;
        wire::lemma_wrote_nothing(step.out);
        wire::lemma_wrote_reason(step.out, last, reason);
        let told = step.conn.goaway_sent(step.out, reason);
        let frames = seq![wire::goaway(last, reason.spec_code())];
        wire::lemma_wrote_nothing(told);
        wire::lemma_wrote_on(step.out, told, told.flush(), frames, Seq::empty());
        assert(frames + Seq::<RawFrame>::empty() =~= frames);
    }
}

/// Messages are taken until there is none or a batch is full; only then what they caused is
/// flushed. Up to that the next message is asked for without waiting; a header list is compressed
/// before anything else is done. After a flush the connection ends if it is going away and no
/// stream is open, and otherwise waits for a message.
pub proof fn lemma_batches_end_with_a_flush(
    handled: nat,
    c: ConnView,
    out: WriterView,
    msg: MsgView,
    decoded: Result<Seq<FieldView>, ErrorView>,
    now: u128,
    gone: Seq<Ticket>,
    job: JobView,
)
    requires
        handled < 32,
    ensures
        ({
            let step = c.message_received(out, msg, decoded, now);
            let turn = event_loop::message_taken(handled, c, out, msg, decoded, now, gone);
            &&& step.next == Ok::<NextView, ErrorView>(NextView::Continue) && handled < 31 ==> {
                &&& turn.action is TryReceive
                &&& turn.handled == handled + 1
                &&& turn.conn == step.conn && turn.out == step.out
            }
            &&& step.next == Ok::<NextView, ErrorView>(NextView::Continue) && handled == 31
                ==> is_flushed(step.conn, step.out, gone, turn)
            &&& step.next == Ok::<NextView, ErrorView>(NextView::Encode(job)) ==> {
                &&& turn.action == ActionView::Encode(job)
                &&& turn.handled == handled
                &&& turn.conn == step.conn && turn.out == step.out
            }
            &&& step.next == Ok::<NextView, ErrorView>(NextView::Stop) ==> turn.action is Closed
                && turn.conn.ready_waiters.len() == 0
        }),
        handled > 0 ==> is_flushed(c, out, gone, event_loop::nothing_taken(handled, c, out, gone)),
        handled == 0 ==> ({
            let turn = event_loop::nothing_taken(handled, c, out, gone);
            &&& turn.action is Closed
            &&& turn.out == out
            &&& turn.conn.ready_waiters.len() == 0
        }),
{
    reveal(ConnView::flushed);
    let step = c.message_received(out, msg, decoded, now);
    let drained = step.conn.waiters_drained(Reason::RefusedStream);
    flush_laws::lemma_no_waiter_appears(drained, step.out, gone);
}

/// At the end of the input, in a batch or not, whoever waits for a stream is told that there will
/// be none, and what the batch caused is flushed before the connection ends.
pub proof fn lemma_end_of_input_refuses_waiters(
    handled: nat,
    c: ConnView,
    out: WriterView,
    decoded: Result<Seq<FieldView>, ErrorView>,
    now: u128,
    gone: Seq<Ticket>,
    i: int,
)
    requires
        c.streams.wf(),
        0 <= i < c.ready_waiters.len(),
    ensures
        ({
            let turn = event_loop::message_taken(
                handled,
                c,
                out,
                MsgView::Eof,
                decoded,
                now,
                gone,
            );
            &&& turn.action is Closed
            &&& turn.conn.events.contains(
                EventView::Done {
                    ticket: c.ready_waiters[i],
                    result: recv_laws::connection_error(Reason::RefusedStream),
                },
            )
            &&& handled == 0 ==> turn.out == out
            &&& handled > 0 ==> turn.out == (ConnView {
                ready_waiters: Seq::empty(),
                events: turn.conn.events.take((c.events.len() + c.ready_waiters.len()) as int),
                ..c
            }).flushed(out, gone).1
        }),
{
    reveal(ConnView::message_received);
    let drained = c.waiters_drained(Reason::RefusedStream);
    let e = EventView::Done {
        ticket: c.ready_waiters[i],
        result: recv_laws::connection_error(Reason::RefusedStream),
    };
    assert(drained.events[c.events.len() + i] == e);
    laws::lemma_flush_takes_nothing_back(drained, out, gone);
    if handled > 0 {
        let after = drained.flushed(out, gone).0;
        assert(after.events.take(drained.events.len() as int) =~= drained.events);
        assert(after.events[c.events.len() + i] == e);
    }
}

/// Whether a turn of the loop flushed, and ended the connection exactly if it is going away and
/// no stream is open.
pub open spec fn is_flushed(
    c: ConnView,
    out: WriterView,
    gone: Seq<Ticket>,
    turn: event_loop::LoopStep,
) -> bool {
    let (after, written) = c.flushed(out, gone);
    &&& turn.handled == 0
    &&& turn.out == written
    &&& turn.action is Closed <==> after.going_away && after.streams.active() == 0
    &&& !(turn.action is Closed) ==> turn.action is Receive && turn.conn == after
    &&& turn.action is Closed ==> turn.conn == (ConnView {
        ready_waiters: Seq::empty(),
        events: turn.conn.events,
        ..after
    }) && turn.conn.events == after.events + after.ready_waiters.map_values(
        |t: Ticket|
            EventView::Done {
                ticket: t,
                result: recv_laws::connection_error(Reason::RefusedStream),
            },
    )
}

/// A stream is open as long as it is not closed: so many of those that are known are active.
pub proof fn lemma_active_streams_are_not_closed(store: StoreView)
    ensures
        store.active() == store.ids.filter(
            |id: u32| store.streams[id].state != StreamState::Closed,
        ).len(),
{
    let open = |id: u32| store.streams[id].state != StreamState::Closed;
    lemma_count_is_filter(store.ids, store, open);
}

proof fn lemma_count_is_filter(ids: Seq<u32>, store: StoreView, open: spec_fn(u32) -> bool)
    requires
        open == (|id: u32| store.streams[id].state != StreamState::Closed),
    ensures
        streams::count_open(ids, store.streams) == ids.filter(open).len(),
    decreases ids.len(),
{
    reveal(Seq::filter);
    if ids.len() > 0 {
        lemma_count_is_filter(ids.drop_last(), store, open);
    }
}

/// Resets count as long as they are not older than the window: the peer may make so many of them
/// within it, and one more ends the connection.
pub proof fn lemma_recent_resets_count(store: StoreView, now: u128)
    ensures
        ({
            let after = store.reset_recorded(now);
            let recent = |t: u128| now - t <= store.reset_window;
            &&& after.resets.len() == store.resets.filter(recent).len() + 1
            &&& after.resets.last() == now
            &&& after.too_many_resets() <==> store.resets.filter(recent).len() + 1
                > store.max_resets
            &&& after == StoreView { resets: after.resets, ..store }
        }),
{
}

} // verus!
