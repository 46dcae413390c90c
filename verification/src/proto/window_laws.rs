//! What holds of the flow-control windows of a connection, whatever messages it takes.

use crate::codec::writer::WriterView;
use crate::error::ErrorView;
use crate::frame;
use crate::frame::control::{GoAwayView, RstStreamView, WindowUpdateView};
use crate::frame::data::DataView;
use crate::frame::headers::HeadersView;
use crate::frame::{FrameView, SettingsView};
use crate::proto::connection::{ConnConfig, ConnView, PendingView};
use crate::proto::event_loop;
use crate::proto::events::{CommandView, JobView, MsgView, Ticket};
use crate::proto::flow_control;
use crate::proto::headers::FieldView;
use crate::proto::laws;
use crate::proto::send::NewStream;
use crate::proto::streams::{Direction, StoreView, Stream};
use vstd::prelude::*;

verus! {

/// Whether the windows of all streams that are not closed started, or were set to start, with
/// what the settings of both ends say.
pub open spec fn windows_agree(c: ConnView) -> bool {
    forall|id: u32|
        c.streams.has(id) && !((#[trigger] c.streams.streams[id]).state is Closed) ==> {
            let s = c.streams.streams[id];
            &&& s.send_flow.initial == flow_control::signed(c.settings.remote.initial_window_size)
            &&& s.recv_flow.initial == flow_control::signed(c.settings.local.initial_window_size)
        }
}

/// Whether a step leaves alone what windows start with: streams that are not closed afterwards
/// were not before, and had windows of the same initial sizes.
spec fn starts_kept(a: ConnView, b: ConnView) -> bool {
    &&& a.settings.remote.initial_window_size == b.settings.remote.initial_window_size
    &&& a.settings.local.initial_window_size == b.settings.local.initial_window_size
    &&& forall|id: u32|
        b.streams.has(id) && !((#[trigger] b.streams.streams[id]).state is Closed) ==> {
            let s = a.streams.streams[id];
            let t = b.streams.streams[id];
            &&& a.streams.has(id)
            &&& !(s.state is Closed)
            &&& t.send_flow.initial == s.send_flow.initial
            &&& t.recv_flow.initial == s.recv_flow.initial
        }
}

proof fn lemma_starts_kept_on(a: ConnView, b: ConnView, c: ConnView)
    requires
        starts_kept(a, b),
        starts_kept(b, c),
    ensures
        starts_kept(a, c),
{
    assert forall|id: u32|
        c.streams.has(id) && !((#[trigger] c.streams.streams[id]).state is Closed) implies {
        let s = a.streams.streams[id];
        let t = c.streams.streams[id];
        &&& a.streams.has(id)
        &&& !(s.state is Closed)
        &&& t.send_flow.initial == s.send_flow.initial
        &&& t.recv_flow.initial == s.recv_flow.initial
    } by {
        assert(b.streams.has(id) && !(b.streams.streams[id].state is Closed));
    }
}

proof fn lemma_kept_starts_agree(a: ConnView, b: ConnView)
    requires
        starts_kept(a, b),
        windows_agree(a),
    ensures
        windows_agree(b),
{
    assert forall|id: u32|
        b.streams.has(id) && !((#[trigger] b.streams.streams[id]).state is Closed) implies {
        let s = b.streams.streams[id];
        &&& s.send_flow.initial == flow_control::signed(b.settings.remote.initial_window_size)
        &&& s.recv_flow.initial == flow_control::signed(b.settings.local.initial_window_size)
    } by {
        assert(a.streams.has(id) && !(a.streams.streams[id].state is Closed));
    }
}

proof fn lemma_abandoned_keeps_starts(c: ConnView, n: int, f: GoAwayView)
    requires
        c.streams.wf(),
        0 <= n <= c.streams.ids.len(),
    ensures
        starts_kept(c, c.streams_abandoned(n, f)),
    decreases n,
{
    if n > 0 {
        lemma_abandoned_keeps_starts(c, n - 1, f);
        laws::lemma_abandoned_evolves(c, n - 1, f);
        let b = c.streams_abandoned(n - 1, f);
        let id = c.streams.ids[n - 1];
        assert(c.streams.ids.contains(id));
        assert(starts_kept(b, b.stream_abandoned(id, f)));
        lemma_starts_kept_on(c, b, b.stream_abandoned(id, f));
    }
}

proof fn lemma_items_keep_starts(c: ConnView, out: WriterView, items: Seq<PendingView>)
    ensures
        starts_kept(c, c.items_sent(out, items).conn),
    decreases items.len(),
{
    if items.len() > 0 {
        let step = c.send_tried(out, items[0]);
        assert(starts_kept(c, step.conn)) by {
            reveal(ConnView::send_tried);
            reveal(ConnView::data_sent);
        }
        lemma_items_keep_starts(step.conn, step.out, items.drop_first());
        lemma_starts_kept_on(c, step.conn, c.items_sent(out, items).conn);
    }
}

proof fn lemma_updates_keep_starts(c: ConnView, out: WriterView, due: Seq<u32>, n: int)
    requires
        0 <= n <= due.len(),
        forall|i: int| 0 <= i < due.len() ==> c.streams.has(#[trigger] due[i]),
    ensures
        starts_kept(c, c.streams_updated(out, due, n).0),
    decreases n,
{
    if n > 0 {
        lemma_updates_keep_starts(c, out, due, n - 1);
        laws::lemma_updates_evolve(c, out, due, n - 1);
        let before = c.streams_updated(out, due, n - 1).0;
        assert(before.streams.has(due[n - 1]));
        assert(starts_kept(before, c.streams_updated(out, due, n).0));
        lemma_starts_kept_on(c, before, c.streams_updated(out, due, n).0);
    }
}

/// A change of the initial size of windows moves the windows of the streams that are not closed
/// by the difference of the new setting to the old one: the send windows where the peer changes
/// its setting, the receive windows where this end does. Closed streams are left alone.
pub proof fn lemma_initial_window_moves_open_streams(
    c: ConnView,
    out: WriterView,
    f: SettingsView,
    size: u32,
    id: u32,
)
    requires
        c.streams.wf(),
        c.streams.has(id),
        windows_agree(c),
        !f.ack,
    ensures
        c.settings_received(out, f).result is Ok && f.initial_window_size == Some(size) ==> {
            let s = c.streams.streams[id];
            let t = c.settings_received(out, f).conn.streams.streams[id];
            if s.state is Closed {
                t == s
            } else {
                &&& t.send_flow.window - s.send_flow.window == flow_control::signed(size)
                    - flow_control::signed(c.settings.remote.initial_window_size)
                &&& t == (Stream { send_flow: t.send_flow, ..s })
            }
        },
        c.initial_window_set(out, size).result is Ok ==> {
            let s = c.streams.streams[id];
            let t = c.initial_window_set(out, size).conn.streams.streams[id];
            if s.state is Closed {
                t == s
            } else {
                &&& t.recv_flow.window - s.recv_flow.window == size - flow_control::signed(
                    c.settings.local.initial_window_size,
                )
                &&& t == (Stream { recv_flow: t.recv_flow, ..s })
            }
        },
{
    if c.settings_received(out, f).result is Ok && f.initial_window_size == Some(size) {
        reveal(ConnView::settings_received);
        let store = match f.max_concurrent_streams {
            Some(max) if c.is_client => StoreView { max_concurrent: max, ..c.streams },
            _ => c.streams,
        };
        laws::lemma_resize_moves_windows(store, flow_control::signed(size), Direction::Send, id);
    }
    if c.initial_window_set(out, size).result is Ok && size
        != c.settings.local.initial_window_size {
        laws::lemma_resize_moves_windows(c.streams, size as i32, Direction::Recv, id);
    }
}

proof fn lemma_settings_keep_agreement(c: ConnView, out: WriterView, f: SettingsView)
    requires
        c.streams.wf(),
        windows_agree(c),
        c.settings_received(out, f).result is Ok,
    ensures
        windows_agree(c.settings_received(out, f).conn),
{
    reveal(ConnView::settings_received);
    let after = c.settings_received(out, f).conn;
    if !f.ack && f.initial_window_size is Some {
        let size = f.initial_window_size->0;
        let store = match f.max_concurrent_streams {
            Some(max) if c.is_client => StoreView { max_concurrent: max, ..c.streams },
            _ => c.streams,
        };
        let n = store.ids.len() as int;
        laws::lemma_resized(store, n, flow_control::signed(size), Direction::Send);
        assert forall|id: u32|
            after.streams.has(id) && !((#[trigger] after.streams.streams[id]).state
                is Closed) implies {
            let s = after.streams.streams[id];
            &&& s.send_flow.initial == flow_control::signed(
                after.settings.remote.initial_window_size,
            )
            &&& s.recv_flow.initial == flow_control::signed(
                after.settings.local.initial_window_size,
            )
        } by {
            laws::lemma_resize_moves_windows(store, flow_control::signed(size), Direction::Send, id);
        }
    } else {
        lemma_kept_starts_agree(c, after);
    }
}

proof fn lemma_window_set_keeps_agreement(c: ConnView, out: WriterView, size: u32)
    requires
        c.streams.wf(),
        windows_agree(c),
        c.initial_window_set(out, size).result is Ok || size > frame::MAX_31_BIT,
    ensures
        windows_agree(c.initial_window_set(out, size).conn),
{
    let after = c.initial_window_set(out, size).conn;
    if size <= frame::MAX_31_BIT && size != c.settings.local.initial_window_size {
        let n = c.streams.ids.len() as int;
        laws::lemma_resized(c.streams, n, size as i32, Direction::Recv);
        assert forall|id: u32|
            after.streams.has(id) && !((#[trigger] after.streams.streams[id]).state
                is Closed) implies {
            let s = after.streams.streams[id];
            &&& s.send_flow.initial == flow_control::signed(
                after.settings.remote.initial_window_size,
            )
            &&& s.recv_flow.initial == flow_control::signed(
                after.settings.local.initial_window_size,
            )
        } by {
            laws::lemma_resize_moves_windows(c.streams, size as i32, Direction::Recv, id);
        }
    } else {
        lemma_kept_starts_agree(c, after);
    }
}

proof fn lemma_data_keeps_starts(c: ConnView, out: WriterView, d: DataView)
    ensures
        starts_kept(c, c.data_received(out, d).conn),
{
    reveal(ConnView::data_received);
}

proof fn lemma_reset_keeps_starts(c: ConnView, r: RstStreamView, now: u128)
    ensures
        starts_kept(c, c.reset_received(r, now).conn),
{
    reveal(ConnView::reset_received);
}

proof fn lemma_window_update_keeps_starts(c: ConnView, w: WindowUpdateView)
    ensures
        starts_kept(c, c.window_update_received(w).conn),
{
    reveal(ConnView::window_update_received);
}

proof fn lemma_request_keeps_agreement(
    c: ConnView,
    out: WriterView,
    id: u32,
    end_stream: bool,
    fields: Seq<FieldView>,
)
    requires
        windows_agree(c),
    ensures
        windows_agree(c.server_request(out, id, end_stream, fields).conn),
{
    let accepted = c.request_accepted(id, end_stream, fields);
    assert(windows_agree(accepted)) by {
        assert forall|other: u32|
            accepted.streams.has(other) && !((#[trigger] accepted.streams.streams[other]).state
                is Closed) && other != id implies c.streams.has(other)
            && c.streams.streams[other] == accepted.streams.streams[other] by {}
    }
    lemma_kept_starts_agree(accepted, accepted.recv_closed(id));
}

proof fn lemma_headers_keep_agreement(
    c: ConnView,
    out: WriterView,
    h: HeadersView,
    decoded: Result<Seq<FieldView>, ErrorView>,
)
    requires
        windows_agree(c),
    ensures
        windows_agree(c.headers_received(out, h, decoded).conn),
{
    reveal(ConnView::headers_received);
    if let Ok(fields) = decoded {
        lemma_request_keeps_agreement(c, out, h.stream_id, h.end_stream, fields);
        let a = c.client_headers(h.stream_id, h.end_stream, fields).conn;
        assert(starts_kept(c, a));
        lemma_kept_starts_agree(c, a);
        if c.streams.has(h.stream_id) {
            let b = c.server_trailers(h.stream_id, h.end_stream, fields).conn;
            assert(starts_kept(c, b));
            lemma_kept_starts_agree(c, b);
        }
    }
}

proof fn lemma_frame_keeps_agreement(
    c: ConnView,
    out: WriterView,
    f: FrameView,
    decoded: Result<Seq<FieldView>, ErrorView>,
    now: u128,
)
    requires
        c.streams.wf(),
        windows_agree(c),
        f matches FrameView::Settings(s) ==> c.settings_received(out, s).result is Ok,
    ensures
        windows_agree(c.frame_processed(out, f, decoded, now).conn),
{
    reveal(ConnView::frame_processed);
    let after = c.frame_processed(out, f, decoded, now).conn;
    match f {
        FrameView::Data(d) => {
            lemma_data_keeps_starts(c, out, d);
            lemma_kept_starts_agree(c, after);
        },
        FrameView::Headers(h) => lemma_headers_keep_agreement(c, out, h, decoded),
        FrameView::RstStream(r) => {
            lemma_reset_keeps_starts(c, r, now);
            lemma_kept_starts_agree(c, after);
        },
        FrameView::Settings(s) => lemma_settings_keep_agreement(c, out, s),
        FrameView::Ping(p) => {
            reveal(ConnView::ping_received);
            lemma_kept_starts_agree(c, after);
        },
        FrameView::GoAway(g) => {
            reveal(ConnView::goaway_received);
            let start = ConnView { going_away: true, ..c };
            lemma_abandoned_keeps_starts(start, c.streams.ids.len() as int, g);
            laws::lemma_abandoned(start, c.streams.ids.len() as int, g);
            lemma_kept_starts_agree(c, after);
        },
        FrameView::WindowUpdate(w) => {
            lemma_window_update_keeps_starts(c, w);
            lemma_kept_starts_agree(c, after);
        },
        _ => {},
    }
}

proof fn lemma_new_stream_keeps_agreement(c: ConnView)
    requires
        windows_agree(c),
    ensures
        c.stream_requested() matches NewStream::Opened(after, _) ==> windows_agree(after),
{
}

proof fn lemma_send_keeps_starts(c: ConnView, out: WriterView, p: PendingView)
    ensures
        starts_kept(c, c.send_requested(out, p).conn),
{
    reveal(ConnView::send_tried);
    reveal(ConnView::data_sent);
}

proof fn lemma_command_keeps_agreement(c: ConnView, out: WriterView, cmd: CommandView)
    requires
        c.streams.wf(),
        windows_agree(c),
        cmd matches CommandView::SetInitialWindowSize { size, .. } ==> c.initial_window_set(
            out,
            size,
        ).result is Ok || size > frame::MAX_31_BIT,
    ensures
        windows_agree(c.command_received(out, cmd).conn),
{
    reveal(ConnView::command_received);
    let after = c.command_received(out, cmd).conn;
    match cmd {
        CommandView::NewStream { .. } => {
            lemma_new_stream_keeps_agreement(c);
        },
        CommandView::SetInitialWindowSize { size, .. } => {
            lemma_window_set_keeps_agreement(c, out, size);
        },
        CommandView::AbruptShutdown { reason, .. } => {
            laws::lemma_shutdown_closes_every_stream(c, out, reason);
        },
        CommandView::SendData { stream_id, data, end_stream, response_tx } => {
            let p = PendingView { stream_id, data, end_stream, response_tx };
            lemma_send_keeps_starts(c, out, p);
            lemma_kept_starts_agree(c, after);
        },
        _ => lemma_kept_starts_agree(c, after),
    }
}

proof fn lemma_message_keeps_agreement(
    c: ConnView,
    out: WriterView,
    msg: MsgView,
    decoded: Result<Seq<FieldView>, ErrorView>,
    now: u128,
)
    requires
        c.streams.wf(),
        windows_agree(c),
        c.message_received(out, msg, decoded, now).next is Ok,
        msg matches MsgView::Cmd(CommandView::SetInitialWindowSize { size, .. })
            ==> c.initial_window_set(out, size).result is Ok || size > frame::MAX_31_BIT,
    ensures
        windows_agree(c.message_received(out, msg, decoded, now).conn),
{
    reveal(ConnView::message_received);
    match msg {
        MsgView::Frame(f) => {
            reveal(ConnView::frame_received);
            if let FrameView::Settings(s) = f {
                reveal(ConnView::frame_processed);
                reveal(ConnView::settings_received);
            }
            lemma_frame_keeps_agreement(c, out, f, decoded, now);
            let step = c.frame_processed(out, f, decoded, now);
            if let Err(ErrorView::StreamError { stream_id, .. }) = step.result {
                let id = (stream_id % 0x8000_0000) as u32;
                lemma_kept_starts_agree(step.conn, step.conn.stream_closed(id));
            }
        },
        MsgView::Cmd(cmd) => lemma_command_keeps_agreement(c, out, cmd),
        _ => lemma_kept_starts_agree(c, c.message_received(out, msg, decoded, now).conn),
    }
}

proof fn lemma_flush_keeps_agreement(c: ConnView, out: WriterView, gone: Seq<Ticket>)
    requires
        c.streams.wf(),
        windows_agree(c),
    ensures
        windows_agree(c.flushed(out, gone).0),
{
    reveal(ConnView::flushed);
    let emptied = ConnView { pending_sends: Seq::empty(), ..c };
    laws::lemma_items_evolve(emptied, out, c.pending_sends);
    lemma_items_keep_starts(emptied, out, c.pending_sends);
    let (sent, out) = c.sends_flushed(out);
    let (updated, out) = sent.capacity_fulfilled(gone).connection_window_updated(out);
    lemma_kept_starts_agree(c, updated);
    laws::lemma_due_are_known(c, updated.streams);
    let due = updated.streams.due_updates();
    lemma_updates_keep_starts(updated, out, due, due.len() as int);
    let last = updated.streams_updated(out, due, due.len() as int).0;
    lemma_kept_starts_agree(updated, last);
    lemma_kept_starts_agree(last, last.closed_forgotten().waiter_woken(gone));
}
proof fn lemma_headers_keep_recv_window(
    c: ConnView,
    out: WriterView,
    h: HeadersView,
    decoded: Result<Seq<FieldView>, ErrorView>,
)
    ensures
        laws::same_recv_window(c, c.headers_received(out, h, decoded).conn),
{
    reveal(ConnView::headers_received);
}

/// The windows of streams agree with the settings: at the start, and after every message, the
/// sending of headers, and the end of a batch. The exception is a change of the initial size
/// that takes a window out of its range. From the peer it ends the connection; on this end it
/// fails with some windows moved and others not.
pub proof fn lemma_windows_agree_with_settings(
    c: ConnView,
    out: WriterView,
    msg: MsgView,
    decoded: Result<Seq<FieldView>, ErrorView>,
    now: u128,
    gone: Seq<Ticket>,
    job: JobView,
    block: Seq<u8>,
    config: ConnConfig,
    is_client: bool,
)
    requires
        c.streams.wf(),
        windows_agree(c),
        c.message_received(out, msg, decoded, now).next is Ok,
        msg matches MsgView::Cmd(CommandView::SetInitialWindowSize { size, .. })
            ==> c.initial_window_set(out, size).result is Ok || size > frame::MAX_31_BIT,
    ensures
        windows_agree(event_loop::started_conn(config, is_client, !is_client)),
        windows_agree(c.message_received(out, msg, decoded, now).conn),
        windows_agree(c.headers_encoded(out, job, block).conn),
        windows_agree(c.flushed(out, gone).0),
{
    lemma_message_keeps_agreement(c, out, msg, decoded, now);
    lemma_kept_starts_agree(c, c.headers_encoded(out, job, block).conn);
    lemma_flush_keeps_agreement(c, out, gone);
}

proof fn lemma_reset_keeps_recv_window(c: ConnView, r: RstStreamView, now: u128)
    ensures
        laws::same_recv_window(c, c.reset_received(r, now).conn),
{
    reveal(ConnView::reset_received);
}

proof fn lemma_goaway_keeps_recv_window(c: ConnView, g: GoAwayView)
    requires
        c.streams.wf(),
    ensures
        laws::same_recv_window(c, c.goaway_received(g)),
{
    reveal(ConnView::goaway_received);
    laws::lemma_abandoned(ConnView { going_away: true, ..c }, c.streams.ids.len() as int, g);
}

proof fn lemma_frame_keeps_covered(
    c: ConnView,
    out: WriterView,
    f: FrameView,
    decoded: Result<Seq<FieldView>, ErrorView>,
    now: u128,
)
    requires
        c.streams.wf(),
        laws::recv_credit(c) <= frame::MAX_31_BIT,
        laws::target_is_covered(c),
    ensures
        laws::target_is_covered(c.frame_processed(out, f, decoded, now).conn),
{
    reveal(ConnView::frame_processed);
    match f {
        FrameView::Data(d) => {
            laws::lemma_connection_credit_is_kept(c, out, d);
            assert(c.data_received(out, d).conn.conn_recv_target == c.conn_recv_target) by {
                reveal(ConnView::data_received);
            }
        },
        FrameView::Headers(h) => lemma_headers_keep_recv_window(c, out, h, decoded),
        FrameView::RstStream(r) => lemma_reset_keeps_recv_window(c, r, now),
        FrameView::Settings(s) => {
            reveal(ConnView::settings_received);
        },
        FrameView::Ping(p) => {
            reveal(ConnView::ping_received);
        },
        FrameView::GoAway(g) => lemma_goaway_keeps_recv_window(c, g),
        FrameView::WindowUpdate(w) => {
            reveal(ConnView::window_update_received);
        },
        _ => {},
    }
}

proof fn lemma_command_keeps_covered(c: ConnView, out: WriterView, cmd: CommandView)
    requires
        c.streams.wf(),
        laws::target_is_covered(c),
    ensures
        laws::target_is_covered(c.command_received(out, cmd).conn),
{
    reveal(ConnView::command_received);
    match cmd {
        CommandView::SendData { .. } => {
            reveal(ConnView::send_tried);
            reveal(ConnView::data_sent);
        },
        CommandView::AbruptShutdown { reason, .. } => {
            laws::lemma_failed_evolves(c, c.streams.ids.len() as int, reason);
        },
        _ => {},
    }
}

/// Whatever a connection does, its receive window, with what was taken from it, reaches its
/// target, as it does at the start: bringing it back never takes more than was used.
pub proof fn lemma_target_stays_covered(
    c: ConnView,
    out: WriterView,
    msg: MsgView,
    decoded: Result<Seq<FieldView>, ErrorView>,
    now: u128,
    gone: Seq<Ticket>,
    config: ConnConfig,
    is_client: bool,
)
    requires
        c.streams.wf(),
        laws::recv_credit(c) <= frame::MAX_31_BIT,
        laws::target_is_covered(c),
    ensures
        laws::target_is_covered(event_loop::started_conn(config, is_client, !is_client)),
        laws::target_is_covered(c.message_received(out, msg, decoded, now).conn),
        laws::target_is_covered(c.flushed(out, gone).0),
{
    reveal(ConnView::message_received);
    match msg {
        MsgView::Frame(f) => {
            reveal(ConnView::frame_received);
            lemma_frame_keeps_covered(c, out, f, decoded, now);
        },
        MsgView::Cmd(cmd) => lemma_command_keeps_covered(c, out, cmd),
        _ => {},
    }
    lemma_flush_keeps_covered(c, out, gone);
}

proof fn lemma_flush_keeps_covered(c: ConnView, out: WriterView, gone: Seq<Ticket>)
    requires
        c.streams.wf(),
        laws::target_is_covered(c),
    ensures
        laws::target_is_covered(c.flushed(out, gone).0),
{
    reveal(ConnView::flushed);
    laws::lemma_items_evolve(ConnView { pending_sends: Seq::empty(), ..c }, out, c.pending_sends);
    let (sent, out) = c.sends_flushed(out);
    let (updated, out) = sent.capacity_fulfilled(gone).connection_window_updated(out);
    laws::lemma_due_are_known(c, updated.streams);
    let due = updated.streams.due_updates();
    laws::lemma_updates_evolve(updated, out, due, due.len() as int);
}

} // verus!
