//! How a connection starts, and the order in which it takes messages, flushes and
//! ends.
//!
//! The loop itself is run by whoever owns the transport and the channels: it hands
//! every message to [`EventLoop`] and does what the [`Action`] says.

use crate::buf;
use crate::codec::writer::{FrameWriter, WriterView};
use crate::error;
use crate::error::{ErrorView, FrameError, FrameErrorView, H2Error, Reason};
use crate::frame;
use crate::frame::control::GoAwayView;
use crate::frame::{Frame, GoAway, StreamId, WindowUpdate, DEFAULT_MAX_FRAME_SIZE};
use crate::proto::connection::{ConnConfig, ConnState, ConnView};
use crate::proto::events::{HeaderJob, InternalMsg, JobView, MsgView, Ticket};
use crate::proto::flush;
use crate::proto::header_map;
use crate::proto::headers;
use crate::proto::headers::{DecodedHeader, FieldView};
use crate::proto::recv;
use crate::proto::settings::{ConnSettings, SyncState};
use crate::text;
use bytes::Bytes;
use vstd::prelude::*;
use vstd::string::*;

verus! {

/// What comes after a message.
#[derive(Debug)]
pub enum Next {
    /// The next message.
    Continue,
    /// The header list is to be compressed, before anything else is done.
    Encode(HeaderJob),
    /// The end of the input was reached.
    Stop,
}

/// A [`Next`] as plain values.
pub enum NextView {
    /// See [`Next::Continue`].
    Continue,
    /// See [`Next::Encode`].
    Encode(JobView),
    /// See [`Next::Stop`].
    Stop,
}

impl View for Next {
    type V = NextView;

    open spec fn view(&self) -> NextView {
        match *self {
            Next::Continue => NextView::Continue,
            Next::Encode(j) => NextView::Encode(j@),
            Next::Stop => NextView::Stop,
        }
    }
}

/// What a connection does with a message.
#[verifier::ext_equal]
pub struct DispatchStep {
    /// The state afterwards.
    pub conn: ConnView,
    /// The writer afterwards.
    pub out: WriterView,
    /// What comes next, or the failure of the connection.
    pub next: Result<NextView, ErrorView>,
}

/// The error that ends the connection where the reader failed with `e`: one that has
/// no reason code is given one.
pub open spec fn read_failure(e: ErrorView) -> ErrorView {
    if e.reason() is Some {
        e
    } else {
        ErrorView::connection(
            match e {
                ErrorView::Frame(FrameErrorView::InvalidFrameSize(_)) => Reason::FrameSizeError,
                ErrorView::Frame(FrameErrorView::FlowControlError(_)) => Reason::FlowControlError,
                ErrorView::HpackDecode(_) | ErrorView::Hpack(_) => Reason::CompressionError,
                _ => Reason::ProtocolError,
            },
        )
    }
}

impl ConnView {
    /// A message comes in.
    #[verifier::opaque]
    pub open spec fn message_received(
        self,
        out: WriterView,
        msg: MsgView,
        decoded: Result<Seq<FieldView>, ErrorView>,
        now: u128,
    ) -> DispatchStep {
        match msg {
            MsgView::Frame(f) => {
                let step = self.frame_received(out, f, decoded, now);
                DispatchStep {
                    conn: step.conn,
                    out: step.out,
                    next: match step.result {
                        Ok(_) => Ok(NextView::Continue),
                        Err(e) => Err(e),
                    },
                }
            },
            MsgView::Eof => DispatchStep { conn: self, out, next: Ok(NextView::Stop) },
            MsgView::ReadError(e) => DispatchStep { conn: self, out, next: Err(read_failure(e)) },
            MsgView::Cmd(c) => {
                let step = self.command_received(out, c);
                DispatchStep {
                    conn: step.conn,
                    out: step.out,
                    next: Ok(
                        match step.job {
                            Some(j) => NextView::Encode(j),
                            None => NextView::Continue,
                        },
                    ),
                }
            },
            MsgView::ReleaseCapacity { stream_id, amount } => DispatchStep {
                conn: if self.streams.has(stream_id) {
                    self.with_stream(
                        stream_id,
                        self.streams.streams[stream_id].release(amount),
                    )
                } else {
                    self
                },
                out,
                next: Ok(NextView::Continue),
            },
        }
    }

    /// Whether a message can be taken: where it is a frame, that one can.
    pub open spec fn admits_msg(
        self,
        msg: MsgView,
        decoded: Result<Seq<FieldView>, ErrorView>,
    ) -> bool {
        msg matches MsgView::Frame(f) ==> self.admits(f, decoded)
    }
}

/// The outcome as plain values.
pub open spec fn next_view(r: Result<Next, H2Error>) -> Result<NextView, ErrorView> {
    match r {
        Ok(n) => Ok(n@),
        Err(e) => Err(e@),
    }
}

impl ConnState {
    /// Dispatch a single internal message. `decoded` is what the header decoder made of
    /// the header block, where the message is a HEADERS frame; `now` is the time, in
    /// nanoseconds.
    pub fn dispatch_msg<W>(
        &mut self,
        msg: InternalMsg,
        decoded: Result<Vec<DecodedHeader>, H2Error>,
        now: u128,
        writer: &mut FrameWriter<W>,
    ) -> (r: Result<Next, H2Error>)
        requires
            old(self)@.wf(),
            old(self)@.admits_msg(msg@, recv::decoded_view(decoded)),
        ensures
            final(writer).spec_transport() == old(writer).spec_transport(),
            (DispatchStep { conn: final(self)@, out: final(writer)@, next: next_view(r) }) == old(
                self,
            )@.message_received(old(writer)@, msg@, recv::decoded_view(decoded), now),
            final(self)@.wf(),
    {
        reveal(ConnView::message_received);
        match msg {
            InternalMsg::Frame(Ok(Some(frame))) => {
                self.handle_frame(frame, decoded, now, writer)?;
                Ok(Next::Continue)
            },
            InternalMsg::Frame(Ok(None)) => Ok(Next::Stop),
            InternalMsg::Frame(Err(e)) => {
                // Library and frame errors become connection errors with proper reason
                // codes, so that the peer is told with GOAWAY
                if e.reason().is_some() {
                    return Err(e);
                }
                let reason = match e {
                    H2Error::Frame(FrameError::InvalidFrameSize(_)) => Reason::FrameSizeError,
                    H2Error::Frame(FrameError::FlowControlError(_)) => Reason::FlowControlError,
                    H2Error::HpackDecode(_) => Reason::CompressionError,
                    H2Error::Hpack(_) => Reason::CompressionError,
                    _ => Reason::ProtocolError,
                };
                Err(H2Error::connection(reason))
            },
            InternalMsg::Cmd(cmd) => {
                match self.handle_command(cmd, writer) {
                    Some(job) => Ok(Next::Encode(job)),
                    None => Ok(Next::Continue),
                }
            },
            InternalMsg::ReleaseCapacity { stream_id, amount } => {
                self.streams.apply_release(&stream_id, amount);
                Ok(Next::Continue)
            },
        }
    }
}

/// How many messages are handled before the connection is flushed.
pub const BATCH_LIMIT: usize = 32;

/// What whoever runs the loop does next.
#[derive(Debug)]
pub enum Action {
    /// Wait for the next message.
    Receive,
    /// Take the next message if one is there.
    TryReceive,
    /// Compress the header list, and hand in the outcome.
    Encode(HeaderJob),
    /// Write what is ready; the connection has ended.
    Closed,
    /// Write what is ready, and shut the transport down if so requested; the connection
    /// has failed.
    Failed {
        /// Why.
        error: H2Error,
        /// Whether the transport is to be shut down.
        shut_down: bool,
    },
}

/// An [`Action`] as plain values.
pub enum ActionView {
    /// See [`Action::Receive`].
    Receive,
    /// See [`Action::TryReceive`].
    TryReceive,
    /// See [`Action::Encode`].
    Encode(JobView),
    /// See [`Action::Closed`].
    Closed,
    /// See [`Action::Failed`].
    Failed {
        /// Why.
        error: ErrorView,
        /// Whether the transport is to be shut down.
        shut_down: bool,
    },
}

impl View for Action {
    type V = ActionView;

    open spec fn view(&self) -> ActionView {
        match *self {
            Action::Receive => ActionView::Receive,
            Action::TryReceive => ActionView::TryReceive,
            Action::Encode(j) => ActionView::Encode(j@),
            Action::Closed => ActionView::Closed,
            Action::Failed { error, shut_down } => ActionView::Failed {
                error: error@,
                shut_down,
            },
        }
    }
}

/// One turn of the loop.
#[verifier::ext_equal]
pub struct LoopStep {
    /// How many messages of the present batch were handled.
    pub handled: nat,
    /// The state of the connection.
    pub conn: ConnView,
    /// The writer.
    pub out: WriterView,
    /// What comes next.
    pub action: ActionView,
}

/// The connection fails with `e`. If the error has a reason code, the peer is told with
/// GOAWAY, unless the connection was going away already, and what was written is flushed.
pub open spec fn failed(handled: nat, conn: ConnView, out: WriterView, e: ErrorView) -> LoopStep {
    LoopStep {
        handled,
        conn,
        out: match e.reason() {
            Some(reason) => (if conn.going_away {
                out
            } else {
                conn.goaway_sent(out, reason)
            }).flush(),
            None => out,
        },
        action: ActionView::Failed { error: e, shut_down: e.reason() is Some },
    }
}

/// The connection ends: all who wait for stream capacity are told.
pub open spec fn closed(handled: nat, conn: ConnView, out: WriterView) -> LoopStep {
    LoopStep {
        handled,
        conn: conn.waiters_drained(Reason::RefusedStream),
        out,
        action: ActionView::Closed,
    }
}

/// The batch is over: the connection is flushed, and ends if it is going away and no
/// stream is left.
pub open spec fn batch_ended(
    conn: ConnView,
    out: WriterView,
    gone: Seq<Ticket>,
) -> LoopStep {
    let (conn, out) = conn.flushed(out, gone);
    if conn.going_away && conn.streams.active() == 0 {
        closed(0, conn, out)
    } else {
        LoopStep { handled: 0, conn, out, action: ActionView::Receive }
    }
}

/// One more message was handled: the batch goes on, up to its limit.
pub open spec fn message_handled(
    handled: nat,
    conn: ConnView,
    out: WriterView,
    gone: Seq<Ticket>,
) -> LoopStep {
    if handled + 1 >= BATCH_LIMIT {
        batch_ended(conn, out, gone)
    } else {
        LoopStep { handled: handled + 1, conn, out, action: ActionView::TryReceive }
    }
}

/// The end of the input was reached: the connection ends, and all who wait for stream
/// capacity are told. Within a batch it is flushed first.
pub open spec fn input_ended(
    handled: nat,
    conn: ConnView,
    out: WriterView,
    gone: Seq<Ticket>,
) -> LoopStep {
    if handled == 0 {
        closed(handled, conn, out)
    } else {
        let (conn, out) = conn.waiters_drained(Reason::RefusedStream).flushed(out, gone);
        LoopStep { handled, conn, out, action: ActionView::Closed }
    }
}

/// A message is handled.
pub open spec fn message_taken(
    handled: nat,
    conn: ConnView,
    out: WriterView,
    msg: MsgView,
    decoded: Result<Seq<FieldView>, ErrorView>,
    now: u128,
    gone: Seq<Ticket>,
) -> LoopStep {
    let step = conn.message_received(out, msg, decoded, now);
    match step.next {
        Err(e) => failed(handled, step.conn, step.out, e),
        Ok(NextView::Continue) => message_handled(handled, step.conn, step.out, gone),
        Ok(NextView::Encode(j)) => LoopStep {
            handled,
            conn: step.conn,
            out: step.out,
            action: ActionView::Encode(j),
        },
        Ok(NextView::Stop) => input_ended(handled, step.conn, step.out, gone),
    }
}

/// No message is there.
pub open spec fn nothing_taken(
    handled: nat,
    conn: ConnView,
    out: WriterView,
    gone: Seq<Ticket>,
) -> LoopStep {
    if handled == 0 {
        closed(handled, conn, out)
    } else {
        batch_ended(conn, out, gone)
    }
}

/// Runs the connection: counts the messages of a batch, and says what to do next.
pub struct EventLoop {
    handled: usize,
}

impl View for EventLoop {
    type V = nat;

    closed spec fn view(&self) -> nat {
        self.handled as nat
    }
}

impl EventLoop {
    #[verifier::type_invariant]
    spec fn in_range(self) -> bool {
        self.handled < BATCH_LIMIT
    }

    /// At the start the next message is waited for.
    pub fn new() -> (l: EventLoop)
        ensures
            l@ == 0,
    {
        EventLoop { handled: 0 }
    }

    /// A message was received. `decoded` is what the header decoder made of the header
    /// block, where the message is a HEADERS frame; `now` is the time, in nanoseconds;
    /// those who are `gone` no longer wait for an answer.
    pub fn message<W>(
        &mut self,
        conn: &mut ConnState,
        msg: InternalMsg,
        decoded: Result<Vec<DecodedHeader>, H2Error>,
        now: u128,
        gone: &[Ticket],
        writer: &mut FrameWriter<W>,
    ) -> (a: Action)
        requires
            old(conn)@.wf(),
            old(conn)@.admits_msg(msg@, recv::decoded_view(decoded)),
        ensures
            final(writer).spec_transport() == old(writer).spec_transport(),
            (LoopStep {
                handled: final(self)@,
                conn: final(conn)@,
                out: final(writer)@,
                action: a@,
            }) == message_taken(
                old(self)@,
                old(conn)@,
                old(writer)@,
                msg@,
                recv::decoded_view(decoded),
                now,
                gone@,
            ),
            final(conn)@.wf(),
    {
        match conn.dispatch_msg(msg, decoded, now, writer) {
            Err(e) => fail(conn, e, writer),
            Ok(Next::Continue) => self.one_handled(conn, gone, writer),
            Ok(Next::Encode(job)) => Action::Encode(job),
            Ok(Next::Stop) => {
                // Drain any remaining ready waiters
                conn.drain_ready_waiters(Reason::RefusedStream);
                if self.handled > 0 {
                    conn.flush_all(gone, writer);
                }
                Action::Closed
            },
        }
    }

    /// The header list of `job` was compressed to `header_block`.
    pub fn encoded<W>(
        &mut self,
        conn: &mut ConnState,
        job: HeaderJob,
        header_block: Bytes,
        gone: &[Ticket],
        writer: &mut FrameWriter<W>,
    ) -> (a: Action)
        requires
            old(conn)@.wf(),
        ensures
            final(writer).spec_transport() == old(writer).spec_transport(),
            ({
                let step = old(conn)@.headers_encoded(
                    old(writer)@,
                    job@,
                    buf::content(header_block),
                );
                (LoopStep {
                    handled: final(self)@,
                    conn: final(conn)@,
                    out: final(writer)@,
                    action: a@,
                }) == message_handled(old(self)@, step.conn, step.out, gone@)
            }),
            final(conn)@.wf(),
    {
        conn.cmd_send_headers(job, header_block, writer);
        self.one_handled(conn, gone, writer)
    }

    /// There is no message: none is waiting, or nobody is left who could send one.
    pub fn no_message<W>(
        &mut self,
        conn: &mut ConnState,
        gone: &[Ticket],
        writer: &mut FrameWriter<W>,
    ) -> (a: Action)
        requires
            old(conn)@.wf(),
        ensures
            final(writer).spec_transport() == old(writer).spec_transport(),
            (LoopStep {
                handled: final(self)@,
                conn: final(conn)@,
                out: final(writer)@,
                action: a@,
            }) == nothing_taken(old(self)@, old(conn)@, old(writer)@, gone@),
            final(conn)@.wf(),
    {
        if self.handled == 0 {
            conn.drain_ready_waiters(Reason::RefusedStream);
            return Action::Closed;
        }
        self.end_batch(conn, gone, writer)
    }

    fn one_handled<W>(
        &mut self,
        conn: &mut ConnState,
        gone: &[Ticket],
        writer: &mut FrameWriter<W>,
    ) -> (a: Action)
        requires
            old(conn)@.wf(),
        ensures
            final(writer).spec_transport() == old(writer).spec_transport(),
            (LoopStep {
                handled: final(self)@,
                conn: final(conn)@,
                out: final(writer)@,
                action: a@,
            }) == message_handled(old(self)@, old(conn)@, old(writer)@, gone@),
            final(conn)@.wf(),
    {
        proof {
            use_type_invariant(&*self);
        }
        if self.handled + 1 >= BATCH_LIMIT {
            return self.end_batch(conn, gone, writer);
        }
        self.handled = self.handled + 1;
        Action::TryReceive
    }

    fn end_batch<W>(
        &mut self,
        conn: &mut ConnState,
        gone: &[Ticket],
        writer: &mut FrameWriter<W>,
    ) -> (a: Action)
        requires
            old(conn)@.wf(),
        ensures
            final(writer).spec_transport() == old(writer).spec_transport(),
            (LoopStep {
                handled: final(self)@,
                conn: final(conn)@,
                out: final(writer)@,
                action: a@,
            }) == batch_ended(old(conn)@, old(writer)@, gone@),
            final(conn)@.wf(),
    {
        // Flush once for the whole batch
        conn.flush_all(gone, writer);
        self.handled = 0;
        // Graceful shutdown: exit when going away and all streams are done
        if conn.going_away && conn.streams.active_count() == 0 {
            conn.drain_ready_waiters(Reason::RefusedStream);
            Action::Closed
        } else {
            Action::Receive
        }
    }
}

/// The connection failed with `error`: the peer is told.
fn fail<W>(conn: &ConnState, error: H2Error, writer: &mut FrameWriter<W>) -> (a: Action)
    ensures
        final(writer).spec_transport() == old(writer).spec_transport(),
        forall|handled: nat|
            (LoopStep { handled, conn: conn@, out: final(writer)@, action: a@ })
                == #[trigger] failed(handled, conn@, old(writer)@, error@),
{
    let reason = error.reason();
    if let Some(reason) = reason {
        // Only send GOAWAY if we haven't already started shutting down
        if !conn.going_away {
            let goaway = GoAway::new(conn.last_peer_stream_id, reason);
            writer.write_frame(&Frame::GoAway(goaway));
        }
        writer.flush_buf();
    }
    Action::Failed { error, shut_down: reason.is_some() }
}

/// The state of a connection whose SETTINGS were sent.
pub open spec fn started_conn(
    config: ConnConfig,
    is_client: bool,
    has_incoming: bool,
) -> ConnView {
    ConnView {
        settings: ConnSettings { sync: SyncState::WaitingAck { queued: false }, ..config.settings },
        ..ConnView::start(
            is_client,
            has_incoming,
            config.settings,
            config.ping_pong@,
            config.initial_connection_window_size,
            config.extra,
        )
    }
}

/// What opens a connection on the wire: SETTINGS, and a WINDOW_UPDATE where the
/// connection's receive window is to be larger than it is at first.
pub open spec fn started_out(config: ConnConfig, out: WriterView) -> WriterView {
    let out = out.frame(config.settings.local.announced().bytes());
    match config.initial_connection_window_size {
        Some(size) if size > 65_535 => out.frame(
            flush::update_bytes(0, (size - 65_535) as u32),
        ),
        _ => out,
    }
}

/// Common post-handshake setup for both client and server connections: creates the
/// state and writes the initial SETTINGS (and optional WINDOW_UPDATE).
fn start<W>(
    config: ConnConfig,
    is_client: bool,
    has_incoming: bool,
    writer: &mut FrameWriter<W>,
) -> (conn: ConnState)
    requires
        config.settings.valid(),
    ensures
        final(writer).spec_transport() == old(writer).spec_transport(),
        conn@ == started_conn(config, is_client, has_incoming),
        conn@.wf(),
        final(writer)@ == started_out(config, old(writer)@),
{
    let mut conn = ConnState::new(
        is_client,
        has_incoming,
        config.settings,
        config.ping_pong,
        config.initial_connection_window_size,
        config.extra,
    );
    let settings = conn.settings.build_initial_settings();
    writer.write_frame(&Frame::Settings(settings));
    // The connection flow control window starts at 65535 and can only be increased via
    // WINDOW_UPDATE frames.
    if let Some(size) = config.initial_connection_window_size {
        if size > 65_535 {
            let wu = WindowUpdate::new(StreamId::zero(), size - 65_535);
            writer.write_frame(&Frame::WindowUpdate(wu));
        }
    }
    assert(conn@ =~= started_conn(config, is_client, has_incoming));
    conn
}

/// Starts the connection on the client side: the preface goes before SETTINGS.
pub fn start_client<W>(config: ConnConfig, writer: &mut FrameWriter<W>) -> (conn: ConnState)
    requires
        config.settings.valid(),
    ensures
        final(writer).spec_transport() == old(writer).spec_transport(),
        conn@ == started_conn(config, true, false),
        conn@.wf(),
        final(writer)@ == started_out(config, old(writer)@.chunk(frame::PREFACE.spec_bytes())),
{
    writer.write_all_bytes(frame::PREFACE.as_bytes_vec());
    start(config, true, false, writer)
}

/// Starts the connection on the server side, after `preface` was read. A client that
/// does not open with the preface of the protocol is turned away with GOAWAY.
pub fn start_server<W>(config: ConnConfig, preface: &[u8], writer: &mut FrameWriter<W>) -> (r:
    Result<ConnState, H2Error>)
    requires
        config.settings.valid(),
    ensures
        final(writer).spec_transport() == old(writer).spec_transport(),
        if preface@ == frame::PREFACE.spec_bytes() {
            &&& r matches Ok(conn) && conn@ == started_conn(config, false, true) && conn@.wf()
            &&& final(writer)@ == started_out(config, old(writer)@)
        } else {
            &&& r matches Err(e) && e@ == ErrorView::Protocol("invalid client preface"@)
            &&& final(writer)@ == old(writer)@.frame(
                GoAwayView::new(0, Reason::ProtocolError).bytes(),
            ).flush()
        },
{
    if !text::is_text(preface, frame::PREFACE) {
        // Send GOAWAY before closing on invalid preface
        let goaway = GoAway::new(StreamId::zero(), Reason::ProtocolError);
        writer.write_frame(&Frame::GoAway(goaway));
        writer.flush_buf();
        return Err(H2Error::Protocol("invalid client preface".to_owned()));
    }
    Ok(start(config, false, true, writer))
}

/// The limits that the reader of frames enforces on what comes in. Where one is `None`,
/// what the reader starts with stays.
#[derive(Clone, Copy, Debug, PartialEq, Eq, Structural)]
pub struct ReaderLimits {
    /// The largest header list.
    pub max_header_list_size: Option<u32>,
    /// The largest frame payload.
    pub max_frame_size: Option<u32>,
}

/// The limits of the reader of frames.
///
/// `max_frame_size` is set eagerly: the peer cannot legally send frames larger than the
/// default before acknowledging our SETTINGS, so setting the limit here is safe.
pub fn reader_limits(config: &ConnConfig) -> (l: ReaderLimits)
    ensures
        l.max_header_list_size == if config.settings.local.max_header_list_size != u32::MAX {
            Some(config.settings.local.max_header_list_size)
        } else {
            None
        },
        l.max_frame_size == if config.settings.local.max_frame_size != DEFAULT_MAX_FRAME_SIZE {
            Some(config.settings.local.max_frame_size)
        } else {
            None
        },
{
    let local = config.settings.local();
    ReaderLimits {
        max_header_list_size: if local.max_header_list_size != u32::MAX {
            Some(local.max_header_list_size)
        } else {
            None
        },
        max_frame_size: if local.max_frame_size != DEFAULT_MAX_FRAME_SIZE {
            Some(local.max_frame_size)
        } else {
            None
        },
    }
}

/// The limits of header compression.
#[derive(Clone, Copy, Debug, PartialEq, Eq, Structural)]
pub struct HpackLimits {
    /// The size of the compression tables on both sides.
    pub table_size: usize,
    /// The largest header list that is decoded.
    pub decoder_max_header_list_size: usize,
    /// The largest header list that is encoded, where there is a limit.
    pub encoder_max_header_list_size: Option<usize>,
}

/// The limits of header compression: incoming header lists are held to what we
/// advertised, and ours are not larger than that either.
pub fn hpack_limits(settings: &ConnSettings) -> (l: HpackLimits)
    ensures
        l.table_size == 4096,
        l.decoder_max_header_list_size == settings.local.max_header_list_size,
        l.encoder_max_header_list_size == if settings.local.max_header_list_size != u32::MAX {
            Some(settings.local.max_header_list_size as usize)
        } else {
            None
        },
{
    let max: u32 = settings.local().max_header_list_size;
    HpackLimits {
        table_size: 4096,
        decoder_max_header_list_size: max as usize,
        encoder_max_header_list_size: if max != u32::MAX {
            Some(max as usize)
        } else {
            None
        },
    }
}

impl ConnState {
    /// Whether `msg` can be taken: the counter of received bytes has room for its data, a
    /// header map for its header list, which is what the header decoder made of its header
    /// block, and it lets frames have a payload.
    pub fn can_take(
        &self,
        msg: &InternalMsg,
        decoded: &Result<Vec<DecodedHeader>, H2Error>,
    ) -> (r: bool)
        requires
            self@.wf(),
        ensures
            r == self@.admits_msg(msg@, recv::decoded_view(*decoded)),
    {
        let frame = match msg {
            InternalMsg::Frame(Ok(Some(frame))) => frame,
            _ => {
                return true;
            },
        };
        match frame {
            Frame::Settings(s) => s.allows_payload(),
            Frame::Headers(h) => match decoded {
                Ok(fields) => !self.streams.contains(&h.stream_id()) || header_map::fits_header_map(
                    fields.as_slice(),
                ),
                Err(_) => true,
            },
            Frame::Data(d) => match self.streams.get(&d.stream_id()) {
                Some(s) => d.payload().len() as u64 <= u64::MAX - s.received_data_bytes,
                None => true,
            },
            _ => true,
        }
    }
}

} // verus!
