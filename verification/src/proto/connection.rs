//! The state of a connection.

use crate::buf;
use crate::codec::writer::WriterView;
use crate::error::{ErrorView, H2Error, Reason};
use crate::frame::control::RstStreamView;
use crate::frame::{self, Frame, StreamId};
use crate::proto::events::{Event, EventView, Ticket};
use crate::proto::flow_control;
use crate::proto::flow_control::FlowControl;
use crate::proto::ping_pong::PingPong;
use crate::proto::settings::ConnSettings;
use crate::proto::streams::{StoreView, Stream, StreamState, StreamStore};
use bytes::Bytes;
use vstd::prelude::*;

pub use crate::codec::FrameWriter;
pub use crate::proto::events::{Command, IncomingStream, InternalMsg};

verus! {

/// Extra connection parameters that are local policies, not conveyed via H2
/// SETTINGS frames.
///
/// These differ from [`ConnSettings`] in that they are never sent to the peer.
/// `ConnSettings` maps 1:1 to HTTP/2 SETTINGS parameters, while `ConnExtra` holds
/// limits enforced locally.
#[derive(Clone, Copy, Debug)]
pub struct ConnExtra {
    /// Maximum number of recently-reset streams tracked before triggering a
    /// GOAWAY with `ENHANCE_YOUR_CALM`.
    ///
    /// This bounds how many streams a peer can reset within
    /// [`reset_stream_duration`](Self::reset_stream_duration).
    ///
    /// Default (when `None`): 50.
    pub max_concurrent_reset_streams: Option<usize>,
    /// Sliding window duration for counting reset streams, in nanoseconds.
    ///
    /// Resets older than this duration are forgotten when evaluating
    /// [`max_concurrent_reset_streams`](Self::max_concurrent_reset_streams).
    ///
    /// Default (when `None`): 1 second.
    pub reset_stream_duration: Option<u128>,
    /// Maximum total bytes queued in the connection's pending-send buffer.
    ///
    /// When the buffer exceeds this limit, further `send_data` calls will
    /// return an error rather than queuing additional data.
    ///
    /// Default (when `None`): 409,600 bytes (400 KiB).
    pub max_send_buffer_size: Option<usize>,
}

impl Default for ConnExtra {
    fn default() -> (e: ConnExtra)
        ensures
            e == (ConnExtra {
                max_concurrent_reset_streams: None,
                reset_stream_duration: None,
                max_send_buffer_size: None,
            }),
    {
        ConnExtra {
            max_concurrent_reset_streams: None,
            reset_stream_duration: None,
            max_send_buffer_size: None,
        }
    }
}

/// Bundled configuration of a connection.
#[derive(Clone, Copy, Debug)]
pub struct ConnConfig {
    /// H2 SETTINGS parameters.
    pub settings: ConnSettings,
    /// Keepalive / PING state.
    pub ping_pong: PingPong,
    /// Optional initial connection-level flow control window override.
    pub initial_connection_window_size: Option<u32>,
    /// Extra connection parameters (reset limits, send buffer size).
    pub extra: ConnExtra,
}

/// A pending DATA send waiting for flow control capacity.
#[derive(Debug)]
pub struct PendingSend {
    /// Target stream identifier.
    pub stream_id: StreamId,
    /// What is left to be sent.
    pub data: Bytes,
    /// Whether to set the END_STREAM flag.
    pub end_stream: bool,
    /// Where the result goes.
    pub response_tx: Ticket,
}

/// A [`PendingSend`] as plain values.
pub struct PendingView {
    /// Target stream identifier.
    pub stream_id: u32,
    /// What is left to be sent.
    pub data: Seq<u8>,
    /// Whether to set the END_STREAM flag.
    pub end_stream: bool,
    /// Where the result goes.
    pub response_tx: Ticket,
}

impl View for PendingSend {
    type V = PendingView;

    open spec fn view(&self) -> PendingView {
        PendingView {
            stream_id: self.stream_id@,
            data: buf::content(self.data),
            end_stream: self.end_stream,
            response_tx: self.response_tx,
        }
    }
}

/// How many bytes wait to be sent.
pub open spec fn total(pending: Seq<PendingView>) -> nat
    decreases pending.len(),
{
    if pending.len() == 0 {
        0
    } else {
        pending[0].data.len() + total(pending.drop_first())
    }
}

/// A pending send capacity reservation waiting for flow control window.
#[derive(Clone, Copy, Debug)]
pub struct PendingCapacity {
    /// Target stream identifier.
    pub stream_id: StreamId,
    /// Number of bytes to reserve.
    pub amount: u32,
    /// Where granted capacity goes.
    pub response_tx: Ticket,
}

/// A [`PendingCapacity`] as plain values.
pub struct CapacityView {
    /// Target stream identifier.
    pub stream_id: u32,
    /// Number of bytes to reserve.
    pub amount: u32,
    /// Where granted capacity goes.
    pub response_tx: Ticket,
}

impl View for PendingCapacity {
    type V = CapacityView;

    open spec fn view(&self) -> CapacityView {
        CapacityView {
            stream_id: self.stream_id@,
            amount: self.amount,
            response_tx: self.response_tx,
        }
    }
}

/// Internal connection state shared by the processing loop.
pub struct ConnState {
    /// The streams.
    pub streams: StreamStore,
    /// What may be sent on the connection.
    pub conn_send_flow: FlowControl,
    /// What may be received on the connection.
    pub conn_recv_flow: FlowControl,
    /// Bytes consumed on connection recv flow since last WINDOW_UPDATE was
    /// sent.
    pub conn_recv_consumed: u32,
    /// The size that the connection's receive window is brought back to.
    pub conn_recv_target: i32,
    /// The settings of both ends.
    pub settings: ConnSettings,
    /// Keepalive.
    pub ping_pong: PingPong,
    /// Whether this end is the client.
    pub is_client: bool,
    /// For server: whether somebody accepts incoming streams.
    pub has_incoming: bool,
    /// Last stream ID we've seen from the peer.
    pub last_peer_stream_id: StreamId,
    /// Whether the connection is being shut down.
    pub going_away: bool,
    /// Pending DATA sends blocked on flow control.
    pub pending_sends: Vec<PendingSend>,
    /// Total bytes currently pending in `pending_sends`.
    pub pending_send_bytes: usize,
    /// Maximum total bytes allowed in the pending send buffer.
    pub max_send_buffer_size: usize,
    /// Waiters for stream capacity.
    pub ready_waiters: Vec<Ticket>,
    /// Pending send capacity reservations waiting for flow control window.
    pub pending_capacity: Vec<PendingCapacity>,
    /// What the connection has to tell, the oldest first.
    pub events: Vec<Event>,
}

/// A [`ConnState`] as plain values.
#[verifier::ext_equal]
pub struct ConnView {
    /// The streams.
    pub streams: StoreView,
    /// What may be sent on the connection.
    pub conn_send_flow: FlowControl,
    /// What may be received on the connection.
    pub conn_recv_flow: FlowControl,
    /// Bytes charged to `conn_recv_flow` since the peer was last given some back.
    pub conn_recv_consumed: u32,
    /// The size that `conn_recv_flow` is brought back to.
    pub conn_recv_target: i32,
    /// The settings of both ends.
    pub settings: ConnSettings,
    /// The PING that waits for its answer.
    pub ping_pong: Option<Seq<u8>>,
    /// Whether this end is the client.
    pub is_client: bool,
    /// For server: whether somebody accepts incoming streams.
    pub has_incoming: bool,
    /// The last stream that the peer opened.
    pub last_peer_stream_id: u32,
    /// Whether the connection is being shut down.
    pub going_away: bool,
    /// DATA sends blocked on flow control.
    pub pending_sends: Seq<PendingView>,
    /// How many bytes they hold.
    pub pending_send_bytes: usize,
    /// How many bytes they may hold.
    pub max_send_buffer_size: usize,
    /// Waiters for stream capacity.
    pub ready_waiters: Seq<Ticket>,
    /// Waiters for send capacity.
    pub pending_capacity: Seq<CapacityView>,
    /// What the connection has to tell.
    pub events: Seq<EventView>,
}

/// The views of the elements.
pub open spec fn pending_views(s: Seq<PendingSend>) -> Seq<PendingView> {
    s.map_values(|p: PendingSend| p@)
}

/// The views of the elements.
pub open spec fn capacity_views(s: Seq<PendingCapacity>) -> Seq<CapacityView> {
    s.map_values(|p: PendingCapacity| p@)
}

/// The views of the elements.
pub open spec fn event_views(s: Seq<Event>) -> Seq<EventView> {
    s.map_values(|e: Event| e@)
}

impl View for ConnState {
    type V = ConnView;

    open spec fn view(&self) -> ConnView {
        ConnView {
            streams: self.streams@,
            conn_send_flow: self.conn_send_flow,
            conn_recv_flow: self.conn_recv_flow,
            conn_recv_consumed: self.conn_recv_consumed,
            conn_recv_target: self.conn_recv_target,
            settings: self.settings,
            ping_pong: self.ping_pong@,
            is_client: self.is_client,
            has_incoming: self.has_incoming,
            last_peer_stream_id: self.last_peer_stream_id@,
            going_away: self.going_away,
            pending_sends: pending_views(self.pending_sends@),
            pending_send_bytes: self.pending_send_bytes,
            max_send_buffer_size: self.max_send_buffer_size,
            ready_waiters: self.ready_waiters@,
            pending_capacity: capacity_views(self.pending_capacity@),
            events: event_views(self.events@),
        }
    }
}

/// What a connection does with one input: its next state, what it writes, and
/// whether it failed.
#[verifier::ext_equal]
pub struct Step {
    /// The state afterwards.
    pub conn: ConnView,
    /// The writer afterwards.
    pub out: WriterView,
    /// The outcome.
    pub result: Result<(), ErrorView>,
}

/// What a connection does with an input on which it writes nothing.
#[verifier::ext_equal]
pub struct QuietStep {
    /// The state afterwards.
    pub conn: ConnView,
    /// The outcome.
    pub result: Result<(), ErrorView>,
}

impl QuietStep {
    /// The same step, with the writer that it leaves alone.
    pub open spec fn with(self, out: WriterView) -> Step {
        Step { conn: self.conn, out, result: self.result }
    }
}

impl ConnView {
    /// The parts of the state fit together: the streams are in order, the peer lets frames
    /// have a payload, the receive window and what was taken from it make up no more than a
    /// window can hold, and the bytes that wait to be sent are counted and within the
    /// limit.
    pub open spec fn wf(self) -> bool {
        &&& self.base_wf()
        &&& self.pending_send_bytes == total(self.pending_sends)
        &&& self.pending_send_bytes <= self.max_send_buffer_size
    }

    /// [`wf`](Self::wf) without what concerns the bytes that wait to be sent.
    pub open spec fn base_wf(self) -> bool {
        &&& self.streams.wf()
        &&& self.streams.is_client == self.is_client
        &&& self.settings.valid()
        &&& self.conn_recv_flow.window + self.conn_recv_consumed <= frame::MAX_31_BIT
    }

    /// The state of a new connection.
    pub open spec fn start(
        is_client: bool,
        has_incoming: bool,
        settings: ConnSettings,
        ping_pong: Option<Seq<u8>>,
        initial_connection_window_size: Option<u32>,
        extra: ConnExtra,
    ) -> ConnView {
        let recv_window = match initial_connection_window_size {
            Some(size) => flow_control::signed(size),
            None => flow_control::DEFAULT_WINDOW_SIZE,
        };
        ConnView {
            streams: StoreView {
                max_concurrent: if is_client {
                    u32::MAX
                } else {
                    settings.local.max_concurrent_streams
                },
                max_resets: extra.max_concurrent_reset_streams.unwrap_or(50),
                reset_window: extra.reset_stream_duration.unwrap_or(1_000_000_000),
                ..StoreView::empty(is_client)
            },
            conn_send_flow: FlowControl::of(flow_control::DEFAULT_WINDOW_SIZE),
            conn_recv_flow: FlowControl::of(recv_window),
            conn_recv_consumed: 0,
            conn_recv_target: recv_window,
            settings,
            ping_pong,
            is_client,
            has_incoming,
            last_peer_stream_id: 0,
            going_away: false,
            pending_sends: Seq::empty(),
            pending_send_bytes: 0,
            max_send_buffer_size: extra.max_send_buffer_size.unwrap_or(409_600),
            ready_waiters: Seq::empty(),
            pending_capacity: Seq::empty(),
            events: Seq::empty(),
        }
    }

    /// Whether the stream would be the peer's and was never opened.
    pub open spec fn idle_peer(self, id: u32) -> bool {
        &&& self.is_client ==> id % 2 == 0
        &&& id > self.last_peer_stream_id
    }

    /// One more thing to tell.
    pub open spec fn tell(self, e: EventView) -> ConnView {
        ConnView { events: self.events.push(e), ..self }
    }

    /// One more thing to tell, if `open`.
    pub open spec fn tell_if(self, open: bool, e: EventView) -> ConnView {
        if open {
            self.tell(e)
        } else {
            self
        }
    }

    /// One stream changed.
    pub open spec fn with_stream(self, id: u32, s: Stream) -> ConnView {
        ConnView { streams: self.streams.with(id, s), ..self }
    }

    /// Nothing more reaches the application from the stream.
    pub open spec fn recv_closed(self, id: u32) -> ConnView {
        if self.streams.has(id) {
            self.with_stream(
                id,
                Stream {
                    recv_open: false,
                    headers_open: false,
                    ..self.streams.streams[id]
                },
            ).tell(EventView::RecvClosed { stream_id: id })
        } else {
            self
        }
    }

    /// This end resets the stream, if it is known: it is closed, and nothing more comes in
    /// on it.
    pub open spec fn stream_closed(self, id: u32) -> ConnView {
        if self.streams.has(id) {
            self.with_stream(
                id,
                Stream {
                    state: StreamState::Closed,
                    was_reset: true,
                    ..self.streams.streams[id]
                },
            ).recv_closed(id)
        } else {
            self
        }
    }

    /// All who wait for stream capacity are told that the connection failed.
    pub open spec fn waiters_drained(self, reason: Reason) -> ConnView {
        ConnView {
            ready_waiters: Seq::empty(),
            events: self.events + self.ready_waiters.map_values(
                |t: Ticket|
                    EventView::Done { ticket: t, result: Err(ErrorView::connection(reason)) },
            ),
            ..self
        }
    }

    /// The step that succeeds and writes nothing more than `out`.
    pub open spec fn done(self, out: WriterView) -> Step {
        Step { conn: self, out, result: Ok(()) }
    }

    /// The step that fails and writes nothing more than `out`.
    pub open spec fn fail(self, out: WriterView, e: ErrorView) -> Step {
        Step { conn: self, out, result: Err(e) }
    }

    /// The step that succeeds without a word.
    pub open spec fn settled(self) -> QuietStep {
        QuietStep { conn: self, result: Ok(()) }
    }

    /// The step that fails without a word.
    pub open spec fn broken(self, e: ErrorView) -> QuietStep {
        QuietStep { conn: self, result: Err(e) }
    }
}

/// A RST_STREAM frame on the wire.
pub open spec fn rst_bytes(id: u32, reason: Reason) -> Seq<u8> {
    (RstStreamView { stream_id: id, reason }).bytes()
}

impl ConnState {
    /// The state of a new connection.
    pub fn new(
        is_client: bool,
        has_incoming: bool,
        settings: ConnSettings,
        ping_pong: PingPong,
        initial_connection_window_size: Option<u32>,
        extra: ConnExtra,
    ) -> (c: ConnState)
        ensures
            c@ == ConnView::start(
                is_client,
                has_incoming,
                settings,
                ping_pong@,
                initial_connection_window_size,
                extra,
            ),
            settings.valid() ==> c@.wf(),
    {
        let mut streams = StreamStore::new(is_client);
        // Server enforces its own local max_concurrent_streams on incoming streams.
        // Client enforces the peer's (remote) limit, applied when SETTINGS is
        // received.
        if !is_client {
            streams.set_max_concurrent_streams(settings.local().max_concurrent_streams);
        }
        if let Some(max) = extra.max_concurrent_reset_streams {
            streams.set_max_reset_streams(max);
        }
        if let Some(nanos) = extra.reset_stream_duration {
            streams.set_reset_window(nanos);
        }
        let conn_recv_flow = match initial_connection_window_size {
            Some(size) => FlowControl::new(flow_control::to_signed(size)),
            None => FlowControl::default(),
        };
        let c = ConnState {
            streams,
            conn_send_flow: FlowControl::default(),
            conn_recv_flow,
            conn_recv_consumed: 0,
            conn_recv_target: conn_recv_flow.window_size(),
            settings,
            ping_pong,
            is_client,
            has_incoming,
            last_peer_stream_id: StreamId::zero(),
            going_away: false,
            pending_sends: Vec::new(),
            pending_send_bytes: 0,
            max_send_buffer_size: extra.max_send_buffer_size.unwrap_or(409_600),
            ready_waiters: Vec::new(),
            pending_capacity: Vec::new(),
            events: Vec::new(),
        };
        assert(c@ =~= ConnView::start(
            is_client,
            has_incoming,
            settings,
            ping_pong@,
            initial_connection_window_size,
            extra,
        ));
        c
    }

    /// Whether `stream_id` refers to a peer-initiated stream that has
    /// never been opened (idle). Receiving DATA, RST_STREAM, or WINDOW_UPDATE
    /// on such a stream is a connection error.
    pub fn is_idle_peer_stream(&self, stream_id: &StreamId) -> (r: bool)
        ensures
            r == self@.idle_peer(stream_id@),
    {
        if self.is_client {
            // Peer is server: server-initiated streams are even
            stream_id.value() % 2 == 0 && stream_id.value() > self.last_peer_stream_id.value()
        } else {
            // Peer is client: all peer streams have IDs > last_peer_stream_id
            stream_id.value() > self.last_peer_stream_id.value()
        }
    }

    /// Takes what the connection has to tell, the oldest first.
    pub fn take_events(&mut self) -> (r: Vec<Event>)
        ensures
            event_views(r@) == old(self)@.events,
            final(self)@ == (ConnView { events: Seq::empty(), ..old(self)@ }),
    {
        let mut r: Vec<Event> = Vec::new();
        core::mem::swap(&mut r, &mut self.events);
        assert(self@ =~= (ConnView { events: Seq::empty(), ..old(self)@ }));
        r
    }

    pub(crate) fn emit(&mut self, e: Event)
        ensures
            final(self)@ == old(self)@.tell(e@),
    {
        self.events.push(e);
        assert(self@ =~= old(self)@.tell(e@));
    }

    /// Answers a request without a value.
    pub(crate) fn answer(&mut self, ticket: Ticket, result: Result<(), H2Error>)
        ensures
            final(self)@ == old(self)@.tell(
                EventView::Done { ticket, result: crate::error::outcome(result) },
            ),
    {
        self.emit(Event::Done { ticket, result });
    }

    pub(crate) fn put_stream(&mut self, id: StreamId, s: Stream)
        requires
            old(self)@.streams.wf(),
            old(self)@.streams.has(id@),
        ensures
            final(self)@ == old(self)@.with_stream(id@, s),
            final(self)@.streams.wf(),
    {
        self.streams.put(id, s);
    }

    /// Nothing more reaches the application from the stream: its reader sees the end.
    pub fn close_recv_senders(&mut self, stream_id: &StreamId)
        requires
            old(self)@.base_wf(),
        ensures
            final(self)@ == old(self)@.recv_closed(stream_id@),
            final(self)@.base_wf(),
    {
        if let Some(s) = self.streams.get(stream_id) {
            let mut s: Stream = *s;
            s.recv_open = false;
            s.headers_open = false;
            self.put_stream(*stream_id, s);
            self.emit(Event::RecvClosed { stream_id: *stream_id });
        }
    }

    /// Send a RST_STREAM frame for the given stream.
    pub fn send_rst_stream<W>(
        &mut self,
        stream_id: StreamId,
        reason: Reason,
        writer: &mut FrameWriter<W>,
    )
        requires
            old(self)@.base_wf(),
        ensures
            final(writer).spec_transport() == old(writer).spec_transport(),
            final(self)@ == old(self)@.stream_closed(stream_id@),
            final(self)@.base_wf(),
            final(writer)@ == old(writer)@.frame(rst_bytes(stream_id@, reason)),
    {
        let rst = frame::RstStream::new(stream_id, reason);
        writer.write_frame(&Frame::RstStream(rst));
        if let Some(s) = self.streams.get(&stream_id) {
            let mut s: Stream = *s;
            s.state = s.state.reset();
            s.was_reset = true;
            self.put_stream(stream_id, s);
        }
        self.close_recv_senders(&stream_id);
    }

    /// Drain all ready waiters with a connection error.
    pub fn drain_ready_waiters(&mut self, reason: Reason)
        ensures
            final(self)@ == old(self)@.waiters_drained(reason),
    {
        let mut waiters: Vec<Ticket> = Vec::new();
        core::mem::swap(&mut waiters, &mut self.ready_waiters);
        let ghost tell = |t: Ticket|
            EventView::Done { ticket: t, result: Err(ErrorView::connection(reason)) };
        let ghost before = self@;
        assert(before =~= (ConnView { ready_waiters: Seq::empty(), ..old(self)@ }));
        let mut i: usize = 0;
        assert(before.events + waiters@.take(0).map_values(tell) =~= before.events);
        while i < waiters.len()
            invariant
                i <= waiters@.len(),
                tell == (|t: Ticket|
                    EventView::Done { ticket: t, result: Err(ErrorView::connection(reason)) }),
                self@ == (ConnView {
                    events: before.events + waiters@.take(i as int).map_values(tell),
                    ..before
                }),
            decreases waiters@.len() - i,
        {
            let t: Ticket = waiters[i];
            self.answer(t, Err(H2Error::connection(reason)));
            proof {
                assert(before.events + waiters@.take(i + 1).map_values(tell) =~= (before.events
                    + waiters@.take(i as int).map_values(tell)).push(tell(t)));
            }
            i = i + 1;
        }
        assert(waiters@.take(i as int) =~= waiters@);
        assert(self@ =~= old(self)@.waiters_drained(reason));
    }
}

} // verus!
