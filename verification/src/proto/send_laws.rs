//! What a connection does on behalf of its user, seen from outside: which frames go out, what
//! whoever asked is told, and what stays to be done.

use crate::codec::split;
use crate::codec::writer;
use crate::codec::writer::WriterView;
use crate::error::{ErrorView, Reason};
use crate::frame::data::DataView;
use crate::frame::headers::HeadersView;
use crate::frame::wire;
use crate::frame::wire::RawFrame;
use crate::frame::{LARGEST_MAX_FRAME_SIZE, MAX_31_BIT};
use crate::proto::connection::{CapacityView, ConnView, PendingView};
use crate::proto::events::{CommandView, EventView, JobView, Ticket};
use crate::proto::flow_control::FlowControl;
use crate::proto::recv_laws;
use crate::proto::send::{CommandStep, OutcomeView};
use crate::proto::settings::{ConnSettings, SettingValues, SyncState};
use crate::proto::streams::{Direction, RecvView, StoreView, Stream, StreamState};
use vstd::prelude::*;

verus! {

/// Whether the peer's limit on frames is within the range that the protocol gives it.
pub open spec fn frame_size_is_valid(c: ConnView) -> bool {
    0 < c.settings.remote.max_frame_size <= LARGEST_MAX_FRAME_SIZE
}

/// Whether `frames` are DATA frames that carry exactly `data` on a stream, within the peer's
/// limit, and of which the last one, and no other, ends the stream if it is to be ended.
pub open spec fn carry_data(
    frames: Seq<RawFrame>,
    id: u32,
    data: Seq<u8>,
    end_stream: bool,
    max: u32,
) -> bool {
    &&& frames.len() > 0
    &&& wire::data_on(frames, id) == data
    &&& forall|i: int|
        0 <= i < frames.len() ==> {
            &&& (#[trigger] frames[i]).kind == 0
            &&& frames[i].stream_id == id
            &&& frames[i].payload.len() <= max
            &&& wire::ends_stream(frames[i]) == (end_stream && i == frames.len() - 1)
        }
}

/// Whether `frames` are one HEADERS frame and the CONTINUATION frames behind it, which carry
/// exactly `block` on a stream, within the peer's limit. The first one ends the stream if it is
/// to be ended, and the last one ends the headers; they say nothing else.
pub open spec fn carry_headers(
    frames: Seq<RawFrame>,
    id: u32,
    block: Seq<u8>,
    end_stream: bool,
    max: u32,
) -> bool {
    &&& frames.len() > 0
    &&& frames.map_values(|f: RawFrame| f.payload).flatten() == block
    &&& forall|i: int|
        0 <= i < frames.len() ==> {
            &&& (#[trigger] frames[i]).kind == if i == 0 {
                1u8
            } else {
                9u8
            }
            &&& frames[i].stream_id == id
            &&& frames[i].payload.len() <= max
            &&& frames[i].flags == (if i == 0 && end_stream {
                1int
            } else {
                0
            }) + (if i == frames.len() - 1 {
                4int
            } else {
                0
            })
        }
}

/// Whether exactly DATA frames that carry `data` were written between two moments.
pub open spec fn data_went_out(
    before: WriterView,
    after: WriterView,
    id: u32,
    data: Seq<u8>,
    end_stream: bool,
    max: u32,
) -> bool {
    exists|frames: Seq<RawFrame>|
        wire::wrote(before, after, frames) && #[trigger] carry_data(
            frames,
            id,
            data,
            end_stream,
            max,
        )
}

/// Whether exactly the frames of the header block `block` were written between two moments.
pub open spec fn headers_went_out(
    before: WriterView,
    after: WriterView,
    id: u32,
    block: Seq<u8>,
    end_stream: bool,
    max: u32,
) -> bool {
    exists|frames: Seq<RawFrame>|
        wire::wrote(before, after, frames) && #[trigger] carry_headers(
            frames,
            id,
            block,
            end_stream,
            max,
        )
}

/// How much may be sent on a stream: what both its own window and the connection's hold.
pub open spec fn sendable(c: ConnView, id: u32) -> int {
    let whole = c.conn_send_flow.window as int;
    let part = if c.streams.has(id) {
        c.streams.streams[id].send_flow.window as int
    } else {
        0
    };
    let least = if whole <= part {
        whole
    } else {
        part
    };
    if least > 0 {
        least
    } else {
        0
    }
}

/// Whether this end's side of a stream is open.
pub open spec fn may_send(s: Stream) -> bool {
    s.state == StreamState::Open || s.state == StreamState::HalfClosedRemote
}

/// Whether this end's side of a stream was ended exactly if `ended`, and nothing else of its
/// state changed.
pub open spec fn own_side(before: StreamState, after: StreamState, ended: bool) -> bool {
    if !ended {
        after == before
    } else {
        &&& before == StreamState::Open ==> after == StreamState::HalfClosedLocal
        &&& before == StreamState::HalfClosedRemote ==> after == StreamState::Closed
    }
}

proof fn lemma_raw_data(frames: Seq<DataView>, id: u32)
    requires
        forall|i: int| 0 <= i < frames.len() ==> (#[trigger] frames[i]).stream_id == id,
    ensures
        wire::data_on(wire::raw_data(frames), id) == split::payloads(frames).flatten(),
    decreases frames.len(),
{
    let raw = wire::raw_data(frames);
    if frames.len() == 0 {
        assert(split::payloads(frames) =~= Seq::empty());
        assert(split::payloads(frames).flatten() =~= Seq::empty());
    } else {
        let before = frames.drop_last();
        assert forall|i: int| 0 <= i < before.len() implies (#[trigger] before[i]).stream_id
            == id by {
            assert(before[i] == frames[i]);
        }
        lemma_raw_data(before, id);
        assert(raw.drop_last() =~= wire::raw_data(before));
        assert(frames.last().stream_id == id);
        writer::lemma_flatten_last(split::payloads(before), frames.last().payload);
        assert(split::payloads(frames) =~= split::payloads(before).push(frames.last().payload));
    }
}

proof fn lemma_end_flag(f: u8)
    ensures
        (f & 1 != 0) == (f % 2 == 1),
{
    assert((f & 1 != 0) == (f % 2 == 1)) by (bit_vector);
}

pub(crate) proof fn lemma_data_is_written(
    out: WriterView,
    id: u32,
    data: Seq<u8>,
    end_stream: bool,
    max: u32,
)
    requires
        0 < max <= LARGEST_MAX_FRAME_SIZE,
        id <= MAX_31_BIT,
    ensures
        ({
            let frames = split::data_frames(id, data, end_stream, max as nat);
            &&& wire::wrote(out, out.data_frames(frames), wire::raw_data(frames))
            &&& carry_data(wire::raw_data(frames), id, data, end_stream, max)
        }),
{
    let frames = split::data_frames(id, data, end_stream, max as nat);
    split::lemma_data_split(id, data, end_stream, max as nat);
    let raw = wire::raw_data(frames);
    wire::lemma_wrote_data(out, frames);
    lemma_raw_data(frames, id);
    assert forall|i: int| 0 <= i < raw.len() implies {
        &&& (#[trigger] raw[i]).kind == 0
        &&& raw[i].stream_id == id
        &&& raw[i].payload.len() <= max
        &&& wire::ends_stream(raw[i]) == (end_stream && i == raw.len() - 1)
    } by {
        lemma_end_flag(frames[i].flags);
    }
}

/// What is sent at once: all of it, on a stream whose windows hold it. The frames carry the
/// data whole and in order; both windows shrink by its length; the stream's own side is ended
/// exactly if that was asked for. On a stream whose own side is over, nothing that is to end it
/// goes out.
pub proof fn lemma_data_goes_out(
    c: ConnView,
    out: WriterView,
    id: u32,
    data: Seq<u8>,
    end_stream: bool,
)
    requires
        frame_size_is_valid(c),
        id <= MAX_31_BIT,
        c.streams.has(id),
        data.len() <= sendable(c, id),
    ensures
        ({
            let step = c.data_sent(out, id, data, end_stream);
            let s = c.streams.streams[id];
            let t = step.conn.streams.streams[id];
            &&& !end_stream || may_send(s) ==> step.result == Ok::<(), ErrorView>(())
            &&& end_stream && !may_send(s) ==> step.result is Err
            &&& step.result is Ok ==> {
                &&& data_went_out(out, step.out, id, data, end_stream, c.settings.remote.max_frame_size)
                &&& step.conn.conn_send_flow.window == c.conn_send_flow.window - data.len()
                &&& t.send_flow.window == s.send_flow.window - data.len()
                &&& own_side(s.state, t.state, end_stream)
                &&& t == Stream {
                    state: t.state,
                    send_flow: FlowControl { window: t.send_flow.window, ..s.send_flow },
                    ..s
                }
                &&& step.conn.events == c.events
                &&& recv_laws::only_stream(
                    ConnView {
                        conn_send_flow: FlowControl {
                            window: step.conn.conn_send_flow.window,
                            ..c.conn_send_flow
                        },
                        ..c
                    },
                    step.conn,
                    id,
                )
            }
            &&& step.result is Err ==> step.out == out && step.conn.events == c.events
        }),
{
    reveal(ConnView::data_sent);
    lemma_data_is_written(out, id, data, end_stream, c.settings.remote.max_frame_size);
    let step = c.data_sent(out, id, data, end_stream);
    assert(step.conn.streams.streams =~= c.streams.streams.insert(
        id,
        step.conn.streams.streams[id],
    ));
}

/// Data that waits is sent as far as the windows of its stream hold it, and the rest goes on
/// waiting: nothing of it is lost, repeated or changed, and the end of the stream goes out with
/// the last byte and not before. Whoever asked is told exactly when all has gone out, or cannot
/// any more because the stream is gone.
pub proof fn lemma_waiting_data_is_sent(c: ConnView, out: WriterView, p: PendingView)
    requires
        frame_size_is_valid(c),
        p.stream_id <= MAX_31_BIT,
        c.streams.has(p.stream_id),
        p.data.len() <= c.pending_send_bytes,
    ensures
        ({
            let step = c.send_tried(out, p);
            let id = p.stream_id;
            let s = c.streams.streams[id];
            let t = step.conn.streams.streams[id];
            let n = sendable(c, id);
            let max = c.settings.remote.max_frame_size;
            let done = EventView::Done { ticket: p.response_tx, result: Ok(()) };
            &&& p.data.len() <= n && (!p.end_stream || may_send(s)) ==> {
                &&& step.outcome is Sent
                &&& data_went_out(out, step.out, id, p.data, p.end_stream, max)
                &&& step.conn.events == c.events.push(done)
                &&& own_side(s.state, t.state, p.end_stream)
                &&& step.conn.pending_send_bytes == c.pending_send_bytes - p.data.len()
            }
            &&& p.data.len() <= n && p.end_stream && !may_send(s) ==> {
                &&& step.outcome is Sent
                &&& step.out == out
                &&& step.conn.events.len() == c.events.len() + 1
                &&& step.conn.events.drop_last() == c.events
                &&& step.conn.events.last() matches EventView::Done { ticket, result: Err(_) }
                    && ticket == p.response_tx
            }
            &&& p.data.len() > n ==> {
                &&& step.outcome matches OutcomeView::Queued(q) && q == (PendingView {
                    data: p.data.skip(n),
                    ..p
                })
                &&& n == 0 ==> step.out == out
                &&& n > 0 ==> data_went_out(out, step.out, id, p.data.take(n), false, max)
                &&& step.conn.events == c.events
                &&& t.state == s.state
                &&& step.conn.pending_send_bytes == c.pending_send_bytes - n
            }
        }),
{
    reveal(ConnView::send_tried);
    let n = sendable(c, p.stream_id);
    let id = p.stream_id;
    let less = c.less_pending(p.data.len());
    if p.data.len() <= n {
        lemma_data_goes_out(less, out, id, p.data, p.end_stream);
        let step = c.send_tried(out, p);
        assert(step.conn.events.drop_last() =~= c.events);
    } else if n > 0 {
        lemma_data_goes_out(c.less_pending(n as nat), out, id, p.data.take(n), false);
    } else {
        assert(p.data.skip(0) =~= p.data);
    }
}

/// Data for a stream that is gone does not wait for ever: whoever asked is told, nothing is
/// written, and no window shrinks.
pub proof fn lemma_data_for_a_lost_stream_fails(c: ConnView, out: WriterView, p: PendingView)
    requires
        !c.streams.has(p.stream_id),
        p.data.len() > 0,
        c.conn_send_flow.window > 0,
    ensures
        ({
            let step = c.send_tried(out, p);
            &&& step.outcome is Errored
            &&& step.out == out
            &&& step.conn == ConnView {
                events: c.events.push(
                    EventView::Done {
                        ticket: p.response_tx,
                        result: recv_laws::stream_error(p.stream_id, Reason::StreamClosed),
                    },
                ),
                pending_send_bytes: (c.pending_send_bytes - p.data.len()) as usize,
                ..c
            }
        }),
{
    reveal(ConnView::send_tried);
}

/// A request to send data on a stream that is gone does not wait where it could be sent: whoever
/// asked is told, and nothing goes out. While the connection's window is used up it waits like
/// any other, within the limit.
pub proof fn lemma_data_for_a_lost_stream_is_refused(
    c: ConnView,
    out: WriterView,
    p: PendingView,
)
    requires
        c.wf(),
        !c.streams.has(p.stream_id),
        p.data.len() > 0,
    ensures
        ({
            let step = c.command_received(
                out,
                CommandView::SendData {
                    stream_id: p.stream_id,
                    data: p.data,
                    end_stream: p.end_stream,
                    response_tx: p.response_tx,
                },
            );
            let over = c.pending_send_bytes + p.data.len() > c.max_send_buffer_size;
            &&& step.job is None
            &&& step.out == out
            &&& over || c.conn_send_flow.window > 0 ==> {
                &&& step.conn == ConnView { events: step.conn.events, ..c }
                &&& step.conn.events.len() == c.events.len() + 1
                &&& step.conn.events.drop_last() == c.events
                &&& step.conn.events.last() matches EventView::Done { ticket, result: Err(e) }
                    && ticket == p.response_tx && (over ==> e is Protocol) && (!over ==> e == (
                ErrorView::StreamError {
                    stream_id: p.stream_id,
                    reason: Reason::StreamClosed,
                    remote: false,
                }))
            }
            &&& !over && c.conn_send_flow.window <= 0 ==> step.conn == (ConnView {
                pending_sends: c.pending_sends.push(p),
                pending_send_bytes: (c.pending_send_bytes + p.data.len()) as usize,
                ..c
            })
        }),
{
    reveal(ConnView::command_received);
    reveal(ConnView::send_tried);
    let step = c.send_requested(out, p);
    if c.pending_send_bytes + p.data.len() > c.max_send_buffer_size || c.conn_send_flow.window
        > 0 {
        assert(step.conn.events.drop_last() =~= c.events);
    }
}

/// What becomes of a request to send data on a stream that is open: it goes out at once where
/// the windows hold it, whatever waits already. What they do not hold waits at the end of the
/// queue, and is counted, as long as the limit on what may wait allows for all of it; otherwise
/// the request is refused and nothing of it goes out.
pub proof fn lemma_data_is_sent_or_queued(c: ConnView, out: WriterView, p: PendingView)
    requires
        c.wf(),
        frame_size_is_valid(c),
        p.stream_id <= MAX_31_BIT,
        c.streams.has(p.stream_id),
        may_send(c.streams.streams[p.stream_id]),
    ensures
        ({
            let step = c.command_received(
                out,
                CommandView::SendData {
                    stream_id: p.stream_id,
                    data: p.data,
                    end_stream: p.end_stream,
                    response_tx: p.response_tx,
                },
            );
            let id = p.stream_id;
            let n = sendable(c, id);
            let max = c.settings.remote.max_frame_size;
            let t = step.conn.streams.streams[id];
            let s = c.streams.streams[id];
            let over = c.pending_send_bytes + p.data.len() > c.max_send_buffer_size;
            &&& step.job is None
            &&& p.data.len() <= n ==> {
                &&& data_went_out(out, step.out, id, p.data, p.end_stream, max)
                &&& step.conn.events == c.events.push(
                    EventView::Done { ticket: p.response_tx, result: Ok(()) },
                )
                &&& own_side(s.state, t.state, p.end_stream)
                &&& step.conn.pending_sends == c.pending_sends
                &&& step.conn.pending_send_bytes == c.pending_send_bytes
            }
            &&& p.data.len() > n && over ==> {
                &&& step.out == out
                &&& step.conn == ConnView { events: step.conn.events, ..c }
                &&& step.conn.events.len() == c.events.len() + 1
                &&& step.conn.events.drop_last() == c.events
                &&& step.conn.events.last() matches EventView::Done { ticket, result: Err(e) }
                    && ticket == p.response_tx && e is Protocol
            }
            &&& p.data.len() > n && !over ==> {
                &&& n == 0 ==> step.out == out
                &&& n > 0 ==> data_went_out(out, step.out, id, p.data.take(n), false, max)
                &&& step.conn.pending_sends == c.pending_sends.push(
                    PendingView { data: p.data.skip(n), ..p },
                )
                &&& step.conn.pending_send_bytes == c.pending_send_bytes + p.data.len() - n
                &&& step.conn.events == c.events
                &&& t.state == s.state
            }
        }),
{
    reveal(ConnView::command_received);
    let over = c.pending_send_bytes + p.data.len() > c.max_send_buffer_size;
    let n = sendable(c, p.stream_id);
    assert(c.send_window(p.stream_id) == n);
    if over {
        if p.data.len() <= n {
            lemma_data_goes_out(c, out, p.stream_id, p.data, p.end_stream);
        } else {
            let step = c.send_requested(out, p);
            assert(step.conn.events.drop_last() =~= c.events);
        }
    } else {
        let more = ConnView {
            pending_send_bytes: (c.pending_send_bytes + p.data.len()) as usize,
            ..c
        };
        assert(sendable(more, p.stream_id) == n);
        lemma_waiting_data_is_sent(more, out, p);
        lemma_try_keeps_queue(more, out, p);
    }
}

proof fn lemma_try_keeps_queue(c: ConnView, out: WriterView, p: PendingView)
    ensures
        c.send_tried(out, p).conn.pending_sends == c.pending_sends,
{
    reveal(ConnView::send_tried);
    reveal(ConnView::data_sent);
}

/// The frames that a header list goes out as say of the end of the stream exactly what was
/// asked for, and this end's side of the stream is ended exactly if a frame says so. They carry
/// the compressed block whole and in order. Whoever asked is told once: of a new stream which
/// one it is, otherwise that it was done. On a stream whose own side is over nothing goes out,
/// which whoever asked is told.
pub proof fn lemma_headers_go_out(c: ConnView, out: WriterView, job: JobView, block: Seq<u8>)
    requires
        frame_size_is_valid(c),
        job.stream_id <= MAX_31_BIT,
        c.streams.has(job.stream_id),
    ensures
        ({
            let step = c.headers_encoded(out, job, block);
            let id = job.stream_id;
            let s = c.streams.streams[id];
            let t = step.conn.streams.streams[id];
            let opened = if s.state == StreamState::Idle {
                StreamState::Open
            } else {
                s.state
            };
            let open = opened == StreamState::Open || opened == StreamState::HalfClosedRemote;
            &&& step.job is None
            &&& open ==> {
                &&& headers_went_out(out, step.out, id, block, job.end_stream, c.settings.remote.max_frame_size)
                &&& own_side(opened, t.state, job.end_stream)
                &&& t == Stream { state: t.state, ..s }
                &&& step.conn.events == c.events.push(
                    match job.opens {
                        Some(recv) => EventView::Opened {
                            ticket: job.response_tx,
                            stream: Ok((id, recv)),
                        },
                        None => EventView::Done { ticket: job.response_tx, result: Ok(()) },
                    },
                )
                &&& recv_laws::only_stream(c, step.conn, id)
            }
            &&& !open ==> {
                &&& step.out == out
                &&& step.conn == ConnView { events: step.conn.events, ..c }
                &&& step.conn.events.len() == c.events.len() + 1
                &&& step.conn.events.drop_last() == c.events
                &&& match step.conn.events.last() {
                    EventView::Opened { ticket, stream: Err(_) } => job.opens is Some && ticket
                        == job.response_tx,
                    EventView::Done { ticket, result: Err(_) } => job.opens is None && ticket
                        == job.response_tx,
                    _ => false,
                }
            }
        }),
{
    let step = c.headers_encoded(out, job, block);
    lemma_header_block_is_written(
        out,
        job.stream_id,
        block,
        job.end_stream,
        c.settings.remote.max_frame_size,
    );
    assert(step.conn.events.drop_last() =~= c.events);
}

/// Headers for a stream that is forgotten go out as they were asked for, and whoever asked is
/// told; nothing else changes.
pub proof fn lemma_headers_of_a_lost_stream_go_out(
    c: ConnView,
    out: WriterView,
    job: JobView,
    block: Seq<u8>,
)
    requires
        frame_size_is_valid(c),
        job.stream_id <= MAX_31_BIT,
        !c.streams.has(job.stream_id),
    ensures
        ({
            let step = c.headers_encoded(out, job, block);
            &&& step.job is None
            &&& headers_went_out(
                out,
                step.out,
                job.stream_id,
                block,
                job.end_stream,
                c.settings.remote.max_frame_size,
            )
            &&& step.conn == ConnView {
                events: c.events.push(
                    match job.opens {
                        Some(recv) => EventView::Opened {
                            ticket: job.response_tx,
                            stream: Ok((job.stream_id, recv)),
                        },
                        None => EventView::Done { ticket: job.response_tx, result: Ok(()) },
                    },
                ),
                ..c
            }
        }),
{
    lemma_header_block_is_written(
        out,
        job.stream_id,
        block,
        job.end_stream,
        c.settings.remote.max_frame_size,
    );
}

proof fn lemma_header_block_is_written(
    out: WriterView,
    id: u32,
    block: Seq<u8>,
    end_stream: bool,
    max: u32,
)
    requires
        0 < max <= LARGEST_MAX_FRAME_SIZE,
        id <= MAX_31_BIT,
    ensures
        ({
            let h = HeadersView { end_stream, ..HeadersView::new(id, block) };
            let frames = split::header_frames(h, max as nat);
            &&& wire::wrote(out, out.frames(frames), wire::raw_headers(frames))
            &&& carry_headers(wire::raw_headers(frames), id, block, end_stream, max)
        }),
{
    let h = HeadersView { end_stream, ..HeadersView::new(id, block) };
    let frames = split::header_frames(h, max as nat);
    split::lemma_header_split(h, max as nat);
    let raw = wire::raw_headers(frames);
    assert forall|i: int| 0 <= i < frames.len() implies wire::is_plain_header(
        #[trigger] frames[i],
    ) by {
        assert(split::block_of(frames[i]).len() <= max);
        if i > 0 {
            assert(frames[i] is Continuation);
        }
    }
    wire::lemma_wrote_headers(out, frames);
    assert(raw.map_values(|f: RawFrame| f.payload) =~= split::blocks(frames)) by {
        assert forall|i: int| 0 <= i < frames.len() implies (#[trigger] raw[i]).payload
            == split::block_of(frames[i]) by {
            assert(wire::is_plain_header(frames[i]));
        }
    }
    assert forall|i: int| 0 <= i < raw.len() implies {
        &&& (#[trigger] raw[i]).kind == if i == 0 {
            1u8
        } else {
            9u8
        }
        &&& raw[i].stream_id == id
        &&& raw[i].payload.len() <= max
        &&& raw[i].flags == (if i == 0 && end_stream {
            1int
        } else {
            0
        }) + (if i == raw.len() - 1 {
            4int
        } else {
            0
        })
    } by {
        assert(wire::is_plain_header(frames[i]));
        assert(split::ends_headers(frames[i]) == (i == frames.len() - 1));
        assert(split::block_of(frames[i]).len() <= max);
        if i > 0 {
            assert(frames[i] is Continuation);
        }
    }
}

/// A request opens a stream of its own: the next identifier of this end, which the header list
/// that is to be compressed then carries, with the fields and the end as they were given. The
/// stream starts with the windows that both ends have set. None is opened while the connection
/// goes away or as many are open as may be, or when all identifiers were used; whoever asked is
/// told then.
pub proof fn lemma_request_opens_a_stream(
    c: ConnView,
    out: WriterView,
    headers: Seq<(Seq<u8>, Seq<u8>)>,
    end_stream: bool,
    ticket: Ticket,
)
    requires
        c.streams.wf(),
        !c.streams.has(c.streams.next_id),
    ensures
        ({
            let step = c.command_received(
                out,
                CommandView::NewStream { headers, end_stream, response_tx: ticket },
            );
            let id = c.streams.next_id;
            let t = step.conn.streams.streams[id];
            let full = c.going_away || c.streams.active() >= c.streams.max_concurrent;
            &&& step.out == out
            &&& full ==> step.job is None && step.conn == (ConnView {
                events: c.events.push(
                    EventView::Opened {
                        ticket,
                        stream: Err(
                            ErrorView::ConnectionError {
                                reason: Reason::RefusedStream,
                                message: None,
                            },
                        ),
                    },
                ),
                ..c
            })
            &&& !full && id > MAX_31_BIT ==> {
                &&& step.job is None
                &&& step.conn == ConnView { events: step.conn.events, ..c }
                &&& step.conn.events.len() == c.events.len() + 1
                &&& step.conn.events.drop_last() == c.events
                &&& step.conn.events.last() matches EventView::Opened { ticket: t, stream: Err(_) }
                    && t == ticket
            }
            &&& !full && id <= MAX_31_BIT ==> {
                &&& step.job == Some(
                    JobView {
                        stream_id: id,
                        headers,
                        end_stream,
                        response_tx: ticket,
                        opens: Some(RecvView { stream_id: id, with_headers: c.is_client }),
                    },
                )
                &&& step.conn.streams.ids == c.streams.ids.push(id)
                &&& step.conn.streams.streams == c.streams.streams.insert(id, t)
                &&& step.conn.streams.next_id == id + 2
                &&& t.state == StreamState::Idle
                &&& c.settings.remote.initial_window_size <= MAX_31_BIT ==> t.send_flow.window
                    == c.settings.remote.initial_window_size
                &&& c.settings.local.initial_window_size <= MAX_31_BIT ==> t.recv_flow.window
                    == c.settings.local.initial_window_size
                &&& t.recv_open && t.reset_open && t.headers_open == c.is_client
                &&& t.released == 0 && t.received_data_bytes == 0 && !t.was_reset
                &&& t.expected_content_length is None
                &&& step.conn == ConnView {
                    streams: StoreView {
                        ids: step.conn.streams.ids,
                        streams: step.conn.streams.streams,
                        next_id: step.conn.streams.next_id,
                        ..c.streams
                    },
                    ..c
                }
            }
        }),
{
    reveal(ConnView::command_received);
    let step = c.command_received(
        out,
        CommandView::NewStream { headers, end_stream, response_tx: ticket },
    );
    assert(step.conn.events.drop_last() =~= c.events || step.job is Some);
}

/// Headers and trailers are compressed as they were given, for the stream that they were given
/// for; trailers end the stream. Nothing else happens before that.
pub proof fn lemma_headers_are_compressed_as_given(
    c: ConnView,
    out: WriterView,
    id: u32,
    headers: Seq<(Seq<u8>, Seq<u8>)>,
    end_stream: bool,
    ticket: Ticket,
)
    ensures
        c.command_received(
            out,
            CommandView::SendHeaders { stream_id: id, headers, end_stream, response_tx: ticket },
        ) == (CommandStep {
            conn: c,
            out,
            job: Some(
                JobView { stream_id: id, headers, end_stream, response_tx: ticket, opens: None },
            ),
        }),
        c.command_received(
            out,
            CommandView::SendTrailers { stream_id: id, trailers: headers, response_tx: ticket },
        ) == (CommandStep {
            conn: c,
            out,
            job: Some(
                JobView {
                    stream_id: id,
                    headers,
                    end_stream: true,
                    response_tx: ticket,
                    opens: None,
                },
            ),
        }),
{
    reveal(ConnView::command_received);
}

/// A graceful shutdown sends one GOAWAY, with the last stream of the peer that was taken and
/// without an error, and touches no stream.
pub proof fn lemma_shutdown_is_announced(c: ConnView, out: WriterView, ticket: Ticket)
    requires
        c.last_peer_stream_id <= MAX_31_BIT,
    ensures
        ({
            let step = c.command_received(out, CommandView::GoAway { response_tx: ticket });
            &&& step.job is None
            &&& wire::wrote(out, step.out, seq![wire::goaway(c.last_peer_stream_id, 0)])
            &&& step.conn == ConnView {
                going_away: true,
                events: c.events.push(EventView::Done { ticket, result: Ok(()) }),
                ..c
            }
        }),
{
    reveal(ConnView::command_received);
    wire::lemma_wrote_reason(out, c.last_peer_stream_id, Reason::NoError);
}

/// A reset by this end tells the peer the stream and the reason, and closes the stream for
/// good: its reader sees the end, and then whoever asked is answered.
pub proof fn lemma_reset_is_sent(
    c: ConnView,
    out: WriterView,
    id: u32,
    reason: Reason,
    ticket: Ticket,
)
    requires
        id <= MAX_31_BIT,
    ensures
        ({
            let step = c.command_received(
                out,
                CommandView::SendReset { stream_id: id, reason, response_tx: ticket },
            );
            let s = c.streams.streams[id];
            &&& step.job is None
            &&& wire::wrote(out, step.out, seq![wire::rst_stream(id, reason.spec_code())])
            &&& recv_laws::told(
                c,
                step.conn,
                recv_laws::if_open(
                    c.streams.has(id),
                    EventView::RecvClosed { stream_id: id },
                ) + seq![EventView::Done { ticket, result: Ok(()) }],
            )
            &&& c.streams.has(id) ==> step.conn.streams.streams[id] == (Stream {
                state: StreamState::Closed,
                recv_open: false,
                headers_open: false,
                was_reset: true,
                ..s
            }) && recv_laws::only_stream(c, step.conn, id)
            &&& !c.streams.has(id) ==> step.conn == (ConnView { events: step.conn.events, ..c })
        }),
{
    reveal(ConnView::command_received);
    wire::lemma_wrote_reason(out, id, reason);
    let step = c.command_received(
        out,
        CommandView::SendReset { stream_id: id, reason, response_tx: ticket },
    );
    assert(step.conn.events =~= c.events + (recv_laws::if_open(
        c.streams.has(id),
        EventView::RecvClosed { stream_id: id },
    ) + seq![EventView::Done { ticket, result: Ok(()) }]));
    if c.streams.has(id) {
        assert(step.conn.streams.streams =~= c.streams.streams.insert(
            id,
            step.conn.streams.streams[id],
        ));
    }
}

/// Whoever asks whether one more stream can be opened is answered at once if it can, or if none
/// ever can, and otherwise waits behind those who wait already.
pub proof fn lemma_ready_is_answered(c: ConnView, out: WriterView, ticket: Ticket)
    ensures
        ({
            let step = c.command_received(out, CommandView::PollReady { response_tx: ticket });
            let room = c.streams.active() < c.streams.max_concurrent;
            &&& step.job is None
            &&& step.out == out
            &&& c.going_away || room ==> step.conn == (ConnView {
                events: c.events.push(
                    EventView::Done {
                        ticket,
                        result: if c.going_away {
                            recv_laws::connection_error(Reason::RefusedStream)
                        } else {
                            Ok(())
                        },
                    },
                ),
                ..c
            })
            &&& !c.going_away && !room ==> step.conn == (ConnView {
                ready_waiters: c.ready_waiters.push(ticket),
                ..c
            })
        }),
{
    reveal(ConnView::command_received);
}

/// What whoever asks for send capacity is told: how much of it the windows hold, if that is
/// anything; that the stream takes no more data, if so. Otherwise nothing is told yet.
pub open spec fn capacity_reply(c: ConnView, p: CapacityView) -> Option<EventView> {
    let s = c.streams.streams[p.stream_id];
    let n = sendable(c, p.stream_id);
    let grant = if p.amount <= n {
        p.amount as int
    } else {
        n
    };
    if !c.streams.has(p.stream_id) {
        Some(
            EventView::Granted {
                ticket: p.response_tx,
                amount: Err(ErrorView::Protocol("stream not found"@)),
                reset: false,
            },
        )
    } else if !may_send(s) {
        Some(
            EventView::Granted {
                ticket: p.response_tx,
                amount: Err(ErrorView::Protocol("stream is not in a sendable state"@)),
                reset: s.was_reset,
            },
        )
    } else if grant > 0 {
        Some(EventView::Granted { ticket: p.response_tx, amount: Ok(grant as u32), reset: false })
    } else {
        None
    }
}

/// A request for send capacity is answered at once if there is something to say, and otherwise
/// waits behind those that wait already. Nothing is set aside for it: the windows stay.
pub proof fn lemma_capacity_is_answered(c: ConnView, out: WriterView, p: CapacityView)
    ensures
        ({
            let step = c.command_received(
                out,
                CommandView::ReserveCapacity {
                    stream_id: p.stream_id,
                    amount: p.amount,
                    response_tx: p.response_tx,
                },
            );
            &&& step.job is None
            &&& step.out == out
            &&& match capacity_reply(c, p) {
                Some(e) => step.conn == (ConnView { events: c.events.push(e), ..c }),
                None => step.conn == (ConnView {
                    pending_capacity: c.pending_capacity.push(p),
                    ..c
                }),
            }
        }),
{
    reveal(ConnView::command_received);
}

/// A larger target for the connection's receive window is reached at once, by one WINDOW_UPDATE
/// for the difference; a smaller one is kept for later, and nothing is written. One that no
/// window can have is refused.
pub proof fn lemma_target_window_is_announced(c: ConnView, out: WriterView, size: u32, ticket: Ticket)
    ensures
        ({
            let step = c.command_received(
                out,
                CommandView::SetTargetWindowSize { size, response_tx: ticket },
            );
            let missing = size - c.conn_recv_flow.window;
            let ok = size <= 0x7fff_ffff;
            &&& step.job is None
            &&& step.conn.events == c.events.push(
                EventView::Done {
                    ticket,
                    result: if ok {
                        Ok(())
                    } else {
                        recv_laws::connection_error(Reason::FlowControlError)
                    },
                },
            )
            &&& !ok ==> step.out == out && step.conn == (ConnView {
                events: step.conn.events,
                ..c
            })
            &&& ok ==> step.conn.conn_recv_target == size
            &&& ok && missing > 0 ==> wire::wrote(
                out,
                step.out,
                seq![wire::window_update(0, missing as u32)],
            ) && step.conn.conn_recv_flow.window == size && step.conn.conn_recv_consumed == 0
            &&& ok && missing <= 0 ==> step.out == out && step.conn.conn_recv_flow
                == c.conn_recv_flow && step.conn.conn_recv_consumed == c.conn_recv_consumed
            &&& step.conn == ConnView {
                conn_recv_flow: FlowControl {
                    window: step.conn.conn_recv_flow.window,
                    ..c.conn_recv_flow
                },
                conn_recv_consumed: step.conn.conn_recv_consumed,
                conn_recv_target: step.conn.conn_recv_target,
                events: step.conn.events,
                ..c
            }
        }),
{
    reveal(ConnView::command_received);
    if size <= 0x7fff_ffff && size > c.conn_recv_flow.window {
        let missing = (size - c.conn_recv_flow.window) as u32;
        wire::lemma_wrote_control(out, 0, missing, Seq::new(8, |i: int| 0u8));
    }
}

/// A new initial window for streams is announced by one SETTINGS frame, which states all of
/// this end's settings with the new window; if another one was not acknowledged yet, it is held
/// back until that comes. The receive windows of streams, and nothing else of them, follow. A
/// window that no stream can have is refused.
pub proof fn lemma_initial_window_is_announced(
    c: ConnView,
    out: WriterView,
    size: u32,
    ticket: Ticket,
    id: u32,
)
    requires
        c.streams.wf(),
    ensures
        ({
            let step = c.command_received(
                out,
                CommandView::SetInitialWindowSize { size, response_tx: ticket },
            );
            let local = SettingValues { initial_window_size: size, ..c.settings.local };
            let synced = c.settings.sync == SyncState::Synced;
            let ok = size <= 0x7fff_ffff;
            &&& step.job is None
            &&& step.conn.events.len() == c.events.len() + 1
            &&& step.conn.events.drop_last() == c.events
            &&& step.conn.events.last() matches EventView::Done { ticket: t, result } && t
                == ticket && (!ok ==> result == recv_laws::connection_error(
                Reason::FlowControlError,
            )) && (ok && (forall|other: u32| #[trigger]
                c.streams.has(other) ==> recv_laws::can_be_resized(
                    c.streams.streams[other].recv_flow,
                    size as i32,
                )) ==> result is Ok)
            &&& !ok ==> step.out == out && step.conn == (ConnView {
                events: step.conn.events,
                ..c
            })
            &&& ok ==> step.conn.settings == (ConnSettings {
                local,
                sync: SyncState::WaitingAck { queued: !synced },
                ..c.settings
            })
            &&& ok && synced ==> exists|payload: Seq<u8>| #[trigger]
                wire::read_parameters(payload) == recv_laws::announcement(local) && wire::wrote(
                    out,
                    step.out,
                    seq![RawFrame { kind: 4, flags: 0, stream_id: 0, payload }],
                )
            &&& ok && !synced ==> step.out == out
            &&& step.conn == ConnView {
                settings: step.conn.settings,
                streams: StoreView { streams: step.conn.streams.streams, ..c.streams },
                events: step.conn.events,
                ..c
            }
            &&& step.conn.streams.has(id) == c.streams.has(id)
            &&& c.streams.has(id) ==> step.conn.streams.streams[id] == (Stream {
                recv_flow: step.conn.streams.streams[id].recv_flow,
                ..c.streams.streams[id]
            })
        }),
{
    reveal(ConnView::command_received);
    let step = c.command_received(
        out,
        CommandView::SetInitialWindowSize { size, response_tx: ticket },
    );
    let local = SettingValues { initial_window_size: size, ..c.settings.local };
    recv_laws::lemma_announcement_is_written(out, local);
    assert(step.conn.events.drop_last() =~= c.events);
    if size <= 0x7fff_ffff {
        let n = c.streams.ids.len() as int;
        recv_laws::lemma_resizing_keeps_the_rest(c.streams, n, size as i32, Direction::Recv, id);
        if forall|other: u32| #[trigger]
            c.streams.has(other) ==> recv_laws::can_be_resized(
                c.streams.streams[other].recv_flow,
                size as i32,
            ) {
            recv_laws::lemma_resizing_succeeds(c.streams, n, size as i32, Direction::Recv);
        }
        assert(wire::read_parameters(local.announced().payload()) == recv_laws::announcement(local));
    }
}

/// An abrupt shutdown sends one GOAWAY, with the reason and the last stream of the peer that was
/// taken, and nothing waits in the buffer behind it. The readers of every stream that was not
/// over are told the error, with the reason, and all readers see the end. Whoever asked is told
/// last.
pub proof fn lemma_abrupt_shutdown_is_told(
    c: ConnView,
    out: WriterView,
    reason: Reason,
    ticket: Ticket,
    id: u32,
)
    requires
        c.streams.wf(),
        c.last_peer_stream_id <= MAX_31_BIT,
    ensures
        ({
            let step = c.command_received(
                out,
                CommandView::AbruptShutdown { reason, response_tx: ticket },
            );
            let s = c.streams.streams[id];
            let error = ErrorView::ConnectionError { reason, message: None };
            &&& step.job is None
            &&& wire::wrote(
                out,
                step.out,
                seq![wire::goaway(c.last_peer_stream_id, reason.spec_code())],
            )
            &&& step.out.buf.len() == 0
            &&& step.conn.going_away
            &&& step.conn == ConnView {
                going_away: true,
                streams: StoreView { streams: step.conn.streams.streams, ..c.streams },
                events: step.conn.events,
                ..c
            }
            &&& c.streams.has(id) ==> {
                &&& step.conn.streams.streams[id].state == StreamState::Closed
                &&& step.conn.events.contains(EventView::RecvClosed { stream_id: id })
                &&& s.state != StreamState::Closed && s.recv_open ==> step.conn.events.contains(
                    EventView::DataError { stream_id: id, error },
                ) && step.conn.events.contains(EventView::TrailersError { stream_id: id, error })
            }
            &&& step.conn.events.last() == (EventView::Done { ticket, result: Ok(()) })
        }),
{
    reveal(ConnView::command_received);
    let n = c.streams.ids.len() as int;
    let before = c.streams_failed(n, reason);
    lemma_failed_are_told(c, n, reason, id);
    wire::lemma_wrote_reason(out, c.last_peer_stream_id, reason);
    let sent = c.goaway_sent(out, reason);
    let frames = seq![wire::goaway(c.last_peer_stream_id, reason.spec_code())];
    wire::lemma_wrote_nothing(sent);
    wire::lemma_wrote_on(out, sent, sent.flush(), frames, Seq::empty());
    assert(frames + Seq::<RawFrame>::empty() =~= frames);
    let after = c.command_received(
        out,
        CommandView::AbruptShutdown { reason, response_tx: ticket },
    ).conn;
    assert forall|e: EventView| before.events.contains(e) implies #[trigger] after.events.contains(
        e,
    ) by {
        let k = before.events.index_of(e);
        assert(after.events[k] == e);
    }
    if c.streams.has(id) {
        assert(c.streams.ids.contains(id));
        assert(c.streams.ids[c.streams.ids.index_of(id)] == id);
        assert(recv_laws::among_first(c, n, id));
        lemma_one_fails(c, id, reason);
    }
}

/// What is told of a stream that fails with the connection.
spec fn failure(s: Stream, id: u32, reason: Reason) -> Seq<EventView> {
    let error = ErrorView::ConnectionError { reason, message: None };
    let open = !(s.state is Closed) && s.recv_open;
    recv_laws::if_open(open, EventView::DataError { stream_id: id, error }) + recv_laws::if_open(
        open,
        EventView::TrailersError { stream_id: id, error },
    ) + seq![EventView::RecvClosed { stream_id: id }]
}

proof fn lemma_one_fails(c: ConnView, id: u32, reason: Reason)
    requires
        c.streams.has(id),
    ensures
        ({
            let after = c.stream_failed(id, reason);
            let s = c.streams.streams[id];
            let error = ErrorView::ConnectionError { reason, message: None };
            &&& recv_laws::told(c, after, failure(s, id, reason))
            &&& recv_laws::only_stream(c, after, id)
            &&& after.streams.streams[id].state == StreamState::Closed
            &&& failure(s, id, reason).contains(EventView::RecvClosed { stream_id: id })
            &&& !(s.state is Closed) && s.recv_open ==> failure(s, id, reason).contains(
                EventView::DataError { stream_id: id, error },
            ) && failure(s, id, reason).contains(EventView::TrailersError { stream_id: id, error })
        }),
{
    let after = c.stream_failed(id, reason);
    let s = c.streams.streams[id];
    let more = failure(s, id, reason);
    assert(after.events =~= c.events + more);
    assert(after.streams.streams =~= c.streams.streams.insert(id, after.streams.streams[id]));
    assert(more[more.len() - 1] == (EventView::RecvClosed { stream_id: id }));
    if !(s.state is Closed) && s.recv_open {
        assert(more[0] is DataError);
        assert(more[1] is TrailersError);
    }
}

proof fn lemma_failed_are_told(c: ConnView, n: int, reason: Reason, id: u32)
    requires
        c.streams.wf(),
        0 <= n <= c.streams.ids.len(),
    ensures
        ({
            let after = c.streams_failed(n, reason);
            let s = c.streams.streams[id];
            let reached = recv_laws::among_first(c, n, id);
            &&& after == ConnView {
                streams: StoreView { streams: after.streams.streams, ..c.streams },
                events: after.events,
                ..c
            }
            &&& after.streams.streams.dom() == c.streams.streams.dom()
            &&& !reached ==> after.streams.streams[id] == s
            &&& reached ==> after.streams.streams[id].state == StreamState::Closed
            &&& reached ==> forall|e: EventView|
                failure(s, id, reason).contains(e) ==> #[trigger] after.events.contains(e)
        }),
    decreases n,
{
    if n > 0 {
        lemma_failed_are_told(c, n - 1, reason, id);
        let before = c.streams_failed(n - 1, reason);
        let after = c.streams_failed(n, reason);
        let at = c.streams.ids[n - 1];
        assert(c.streams.ids.contains(at));
        assert(c.streams.has(at));
        if at == id {
            assert(c.streams.ids[n - 1] == id);
            assert(!recv_laws::among_first(c, n - 1, id));
        } else {
            assert(recv_laws::among_first(c, n, id) == recv_laws::among_first(c, n - 1, id)) by {
                if recv_laws::among_first(c, n, id) {
                    let k = choose|k: int| 0 <= k < n && c.streams.ids[k] == id;
                    assert(k < n - 1);
                }
            }
        }
        lemma_one_fails(before, at, reason);
        recv_laws::lemma_told_is_kept(
            before,
            after,
            failure(before.streams.streams[at], at, reason),
        );
        assert(after.streams.streams.dom() =~= c.streams.streams.dom());
    }
}

} // verus!
