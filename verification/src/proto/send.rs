//! What a connection does on behalf of its user.

use crate::buf;
use crate::codec::split;
use crate::codec::writer::{FrameWriter, WriterView};
use crate::error;
use crate::error::{ErrorView, H2Error, Reason};
use crate::frame;
use crate::frame::control::{GoAwayView, WindowUpdateView};
use crate::frame::headers::HeadersView;
use crate::frame::{Frame, GoAway, Headers, StreamId, WindowUpdate, MAX_31_BIT};
use crate::proto::connection;
use crate::proto::connection::{
    CapacityView, ConnState, ConnView, PendingCapacity, PendingSend, PendingView, Step,
};
use crate::proto::events;
use crate::proto::events::{
    Command, CommandView, Event, EventView, HeaderJob, HeaderPair, JobView, Ticket,
};
use crate::proto::flow_control;
use crate::proto::flow_control::FlowControl;
use crate::proto::settings::{ConnSettings, SettingValues};
use crate::proto::streams;
use crate::proto::streams::{Direction, RecvView, StoreView, Stream, StreamState};
use bytes::Bytes;
use vstd::prelude::*;
use vstd::string::*;

verus! {

/// Result of `try_send_or_queue`: what happened to the data.
#[derive(Debug)]
pub enum SendOutcome {
    /// All data was sent, or the attempt failed; whoever asked was told.
    Sent,
    /// Data was partially or fully queued; the `PendingSend` should be kept.
    Queued(PendingSend),
    /// An error occurred (whoever asked was told).
    Errored,
}

/// A [`SendOutcome`] as plain values.
pub enum OutcomeView {
    /// See [`SendOutcome::Sent`].
    Sent,
    /// See [`SendOutcome::Queued`].
    Queued(PendingView),
    /// See [`SendOutcome::Errored`].
    Errored,
}

impl View for SendOutcome {
    type V = OutcomeView;

    open spec fn view(&self) -> OutcomeView {
        match *self {
            SendOutcome::Sent => OutcomeView::Sent,
            SendOutcome::Queued(p) => OutcomeView::Queued(p@),
            SendOutcome::Errored => OutcomeView::Errored,
        }
    }
}

/// What a connection does with data to be sent.
#[verifier::ext_equal]
pub struct SendStep {
    /// The state afterwards.
    pub conn: ConnView,
    /// The writer afterwards.
    pub out: WriterView,
    /// What happened to the data.
    pub outcome: OutcomeView,
}

/// The smaller of two numbers.
pub open spec fn least(a: u32, b: u32) -> u32 {
    if a <= b {
        a
    } else {
        b
    }
}

fn smaller(a: u32, b: u32) -> (r: u32)
    ensures
        r == least(a, b),
{
    if a <= b {
        a
    } else {
        b
    }
}

impl ConnView {
    /// How much may be sent on a stream now: what both the connection's and the
    /// stream's window hold. On a stream that is not known it is nothing.
    pub open spec fn send_window(self, id: u32) -> u32 {
        least(
            self.conn_send_flow.spec_available(),
            if self.streams.has(id) {
                self.streams.streams[id].send_flow.spec_available()
            } else {
                0
            },
        )
    }

    /// DATA is sent: both windows are charged, the stream is ended if so requested, and
    /// the frames are written.
    #[verifier::opaque]
    pub open spec fn data_sent(
        self,
        out: WriterView,
        id: u32,
        data: Seq<u8>,
        end_stream: bool,
    ) -> Step {
        let written = out.data_frames(
            split::data_frames(id, data, end_stream, self.settings.remote.max_frame_size as nat),
        );
        match self.conn_send_flow.charged(data.len()) {
            None => self.fail(out, ErrorView::connection(Reason::FlowControlError)),
            Some(flow) => {
                let c = ConnView { conn_send_flow: flow, ..self };
                let s = self.streams.streams[id];
                if !self.streams.has(id) {
                    c.done(written)
                } else {
                    match s.send_flow.charged(data.len()) {
                        None => c.fail(out, ErrorView::stream(id, Reason::FlowControlError)),
                        Some(flow) => {
                            let s = Stream { send_flow: flow, ..s };
                            let c = c.with_stream(id, s);
                            if !end_stream {
                                c.done(written)
                            } else {
                                match s.state.local_end() {
                                    Some(state) => c.with_stream(id, Stream { state, ..s }).done(
                                        written,
                                    ),
                                    None => c.fail(
                                        out,
                                        ErrorView::Protocol(streams::CANNOT_SEND@),
                                    ),
                                }
                            }
                        },
                    }
                }
            },
        }
    }

    /// Whoever asked is told how the step went.
    pub open spec fn told_done(self, ticket: Ticket, result: Result<(), ErrorView>) -> ConnView {
        self.tell(EventView::Done { ticket, result })
    }

    /// Some bytes no longer wait to be sent.
    pub open spec fn less_pending(self, n: nat) -> ConnView {
        ConnView { pending_send_bytes: (self.pending_send_bytes - n) as usize, ..self }
    }

    /// Data that is counted as waiting is sent as far as the windows allow. The rest
    /// stays queued, unless the stream is gone while the connection's window is open.
    #[verifier::opaque]
    pub open spec fn send_tried(self, out: WriterView, p: PendingView) -> SendStep {
        let len = p.data.len();
        let window = self.send_window(p.stream_id);
        let now = if len <= window {
            len
        } else {
            window as nat
        };
        if len == 0 || now == len {
            let step = self.less_pending(len).data_sent(out, p.stream_id, p.data, p.end_stream);
            SendStep {
                conn: step.conn.told_done(p.response_tx, step.result),
                out: step.out,
                outcome: OutcomeView::Sent,
            }
        } else if now > 0 {
            let step = self.less_pending(now).data_sent(
                out,
                p.stream_id,
                p.data.take(now as int),
                false,
            );
            SendStep {
                conn: step.conn,
                out: step.out,
                outcome: OutcomeView::Queued(
                    PendingView { data: p.data.skip(now as int), ..p },
                ),
            }
        } else if !self.streams.has(p.stream_id) && self.conn_send_flow.spec_available() > 0 {
            SendStep {
                conn: self.less_pending(len).told_done(
                    p.response_tx,
                    Err(ErrorView::stream(p.stream_id, Reason::StreamClosed)),
                ),
                out,
                outcome: OutcomeView::Errored,
            }
        } else {
            SendStep { conn: self, out, outcome: OutcomeView::Queued(p) }
        }
    }
}

/// A part of the data that fits into the windows of a known stream is always sent.
proof fn lemma_part_is_sent(c: ConnView, out: WriterView, id: u32, data: Seq<u8>)
    requires
        0 < data.len() <= c.send_window(id),
    ensures
        c.data_sent(out, id, data, false).result is Ok,
{
    reveal(ConnView::data_sent);
}

impl ConnState {
    /// Send DATA on a stream, consuming flow control and splitting into frames.
    ///
    /// The caller (`try_send_or_queue`) has already verified that the data fits
    /// within the current flow control windows. This method consumes flow
    /// control, updates stream state, and writes the wire frames.
    pub fn cmd_send_data<W>(
        &mut self,
        stream_id: StreamId,
        data: &Bytes,
        end_stream: bool,
        writer: &mut FrameWriter<W>,
    ) -> (r: Result<(), H2Error>)
        requires
            old(self)@.streams.wf(),
            old(self)@.settings.remote.max_frame_size > 0,
        ensures
            final(writer).spec_transport() == old(writer).spec_transport(),
            (Step { conn: final(self)@, out: final(writer)@, result: error::outcome(r) }) == old(
                self,
            )@.data_sent(old(writer)@, stream_id@, buf::content(*data), end_stream),
            final(self)@.streams.wf(),
            old(self)@.base_wf() ==> final(self)@.base_wf(),
    {
        reveal(ConnView::data_sent);
        let data_len: u128 = data.len() as u128;
        if self.conn_send_flow.charge(data_len).is_err() {
            return Err(H2Error::connection(Reason::FlowControlError));
        }
        if let Some(s) = self.streams.get(&stream_id) {
            let mut s: Stream = *s;
            if s.send_flow.charge(data_len).is_err() {
                return Err(H2Error::stream(stream_id.value(), Reason::FlowControlError));
            }
            self.put_stream(stream_id, s);
            if end_stream {
                s.state = s.state.send_end_stream()?;
                self.put_stream(stream_id, s);
            }
        }
        let max_frame: usize = self.settings.remote().max_frame_size as usize;
        split::write_data_frames(writer, stream_id, data, end_stream, max_frame);
        Ok(())
    }

    /// Compute sendable bytes and try to send data immediately, partially, or
    /// not at all, returning a [`SendOutcome`] describing what happened.
    ///
    /// On full or partial send the corresponding `pending_send_bytes` are
    /// subtracted (the caller must have already *added* them before calling).
    pub fn try_send_or_queue<W>(
        &mut self,
        item: PendingSend,
        writer: &mut FrameWriter<W>,
    ) -> (outcome: SendOutcome)
        requires
            old(self)@.base_wf(),
            item@.data.len() <= old(self)@.pending_send_bytes,
        ensures
            final(writer).spec_transport() == old(writer).spec_transport(),
            (SendStep { conn: final(self)@, out: final(writer)@, outcome: outcome@ }) == old(
                self,
            )@.send_tried(old(writer)@, item@),
            final(self)@.base_wf(),
    {
        reveal(ConnView::send_tried);
        let len: usize = item.data.len();
        let conn_avail: u32 = self.conn_send_flow.available();
        let (known, stream_avail): (bool, u32) = match self.streams.get(&item.stream_id) {
            Some(s) => (true, s.send_flow.available()),
            None => (false, 0),
        };
        let window: usize = smaller(conn_avail, stream_avail) as usize;
        let sendable: usize = if len <= window {
            len
        } else {
            window
        };

        if item.data.is_empty() || sendable == len {
            // Full send
            self.pending_send_bytes = self.pending_send_bytes - len;
            let result = self.cmd_send_data(item.stream_id, &item.data, item.end_stream, writer);
            self.answer(item.response_tx, result);
            SendOutcome::Sent
        } else if sendable > 0 {
            // Partial send: send what fits, queue remainder
            let send_now = buf::slice(&item.data, 0, sendable);
            let remainder = buf::slice(&item.data, sendable, len);
            self.pending_send_bytes = self.pending_send_bytes - sendable;
            proof {
                let whole = item@.data;
                assert(whole.take(sendable as int) =~= whole.subrange(0, sendable as int));
                assert(whole.skip(sendable as int) =~= whole.subrange(
                    sendable as int,
                    len as int,
                ));
                lemma_part_is_sent(self@, writer@, item@.stream_id, buf::content(send_now));
            }
            let _ = self.cmd_send_data(item.stream_id, &send_now, false, writer);
            SendOutcome::Queued(
                PendingSend {
                    stream_id: item.stream_id,
                    data: remainder,
                    end_stream: item.end_stream,
                    response_tx: item.response_tx,
                },
            )
        } else if !known && conn_avail > 0 {
            // Stream gone (reset or forgotten) but connection window is open:
            // don't queue forever
            self.pending_send_bytes = self.pending_send_bytes - len;
            let id: u32 = item.stream_id.value();
            self.answer(item.response_tx, Err(H2Error::stream(id, Reason::StreamClosed)));
            SendOutcome::Errored
        } else {
            // No capacity at all
            SendOutcome::Queued(item)
        }
    }
}

/// What a connection does with a command.
#[verifier::ext_equal]
pub struct CommandStep {
    /// The state afterwards.
    pub conn: ConnView,
    /// The writer afterwards.
    pub out: WriterView,
    /// The header list that is to be compressed next, where there is one.
    pub job: Option<JobView>,
}

/// What to say to a request for send capacity.
pub enum CapacityAnswer {
    /// So much may be sent.
    Grant(u32),
    /// Nothing will be sent on this stream.
    Refuse {
        /// Why.
        message: Seq<char>,
        /// Whether the stream was reset.
        reset: bool,
    },
    /// Nothing may be sent yet.
    Wait,
}

impl CapacityAnswer {
    /// What whoever asked is told.
    pub open spec fn told_to(self, ticket: Ticket) -> EventView {
        match self {
            CapacityAnswer::Grant(n) => EventView::Granted {
                ticket,
                amount: Ok(n),
                reset: false,
            },
            CapacityAnswer::Refuse { message, reset } => EventView::Granted {
                ticket,
                amount: Err(ErrorView::Protocol(message)),
                reset,
            },
            CapacityAnswer::Wait => EventView::Granted { ticket, amount: Ok(0), reset: false },
        }
    }
}

/// A stream for a new request was opened, or could not be.
pub enum NewStream {
    /// It was opened.
    Opened(ConnView, u32),
    /// It could not be.
    Refused(ErrorView),
}

impl ConnView {
    /// The step that is complete.
    pub open spec fn complete(self, out: WriterView) -> CommandStep {
        CommandStep { conn: self, out, job: None }
    }

    /// Data is to be sent. Beyond the limit on what may wait, it must fit into the
    /// windows entirely.
    pub open spec fn send_requested(self, out: WriterView, p: PendingView) -> CommandStep {
        let len = p.data.len();
        if self.pending_send_bytes + len > self.max_send_buffer_size {
            if self.send_window(p.stream_id) < len {
                self.told_done(
                    p.response_tx,
                    Err(ErrorView::Protocol("send buffer size limit exceeded"@)),
                ).complete(out)
            } else {
                let step = self.data_sent(out, p.stream_id, p.data, p.end_stream);
                step.conn.told_done(p.response_tx, step.result).complete(step.out)
            }
        } else {
            let step = ConnView {
                pending_send_bytes: (self.pending_send_bytes + len) as usize,
                ..self
            }.send_tried(out, p);
            match step.outcome {
                OutcomeView::Queued(q) => ConnView {
                    pending_sends: step.conn.pending_sends.push(q),
                    ..step.conn
                }.complete(step.out),
                _ => step.conn.complete(step.out),
            }
        }
    }

    /// A stream for a new request. None is opened while the connection goes away, when
    /// enough are open, or when all identifiers were used.
    pub open spec fn stream_requested(self) -> NewStream {
        let id = self.streams.next_id;
        if self.going_away || !self.streams.can_accept() {
            NewStream::Refused(ErrorView::connection(Reason::RefusedStream))
        } else if id > MAX_31_BIT {
            NewStream::Refused(ErrorView::Protocol(streams::IDS_EXHAUSTED@))
        } else {
            NewStream::Opened(
                ConnView {
                    streams: StoreView { next_id: (id + 2) as u32, ..self.streams }.inserted(
                        id,
                        Stream::fresh(
                            flow_control::signed(self.settings.remote.initial_window_size),
                            flow_control::signed(self.settings.local.initial_window_size),
                            self.is_client,
                        ),
                    ),
                    ..self
                },
                id,
            )
        }
    }

    /// A new request is to be sent: its stream is opened, and its headers are to be
    /// compressed.
    pub open spec fn request_requested(
        self,
        out: WriterView,
        headers: Seq<(Seq<u8>, Seq<u8>)>,
        end_stream: bool,
        ticket: Ticket,
    ) -> CommandStep {
        match self.stream_requested() {
            NewStream::Refused(e) => self.tell(
                EventView::Opened { ticket, stream: Err(e) },
            ).complete(out),
            NewStream::Opened(c, id) => CommandStep {
                conn: c,
                out,
                job: Some(
                    JobView {
                        stream_id: id,
                        headers,
                        end_stream,
                        response_tx: ticket,
                        opens: Some(RecvView { stream_id: id, with_headers: self.is_client }),
                    },
                ),
            },
        }
    }

    /// A header list was compressed: the stream's state follows, the frames are written,
    /// and whoever asked is told. On a stream that may not send, nothing is written.
    pub open spec fn headers_encoded(
        self,
        out: WriterView,
        job: JobView,
        block: Seq<u8>,
    ) -> CommandStep {
        let id = job.stream_id;
        let s = self.streams.streams[id];
        let h = HeadersView { end_stream: job.end_stream, ..HeadersView::new(id, block) };
        let written = out.frames(
            split::header_frames(h, self.settings.remote.max_frame_size as nat),
        );
        if self.streams.has(id) {
            match s.state.headers_sent(job.end_stream) {
                Some(state) => self.with_stream(id, Stream { state, ..s }).job_told(
                    job,
                    Ok(()),
                ).complete(written),
                None => self.job_told(
                    job,
                    Err(ErrorView::Protocol(streams::CANNOT_SEND@)),
                ).complete(out),
            }
        } else {
            self.job_told(job, Ok(())).complete(written)
        }
    }

    /// Whoever asked for headers to be sent is told how that went.
    pub open spec fn job_told(self, job: JobView, result: Result<(), ErrorView>) -> ConnView {
        match job.opens {
            Some(recv) => self.tell(
                EventView::Opened {
                    ticket: job.response_tx,
                    stream: match result {
                        Ok(_) => Ok((job.stream_id, recv)),
                        Err(e) => Err(e),
                    },
                },
            ),
            None => self.told_done(job.response_tx, result),
        }
    }

    /// What to say to a request for `amount` bytes of send capacity.
    pub open spec fn capacity_answer(self, id: u32, amount: u32) -> CapacityAnswer {
        let s = self.streams.streams[id];
        if !self.streams.has(id) {
            CapacityAnswer::Refuse {
                message: "stream not found"@,
                reset: self.streams.is_lost(id),
            }
        } else if !s.state.spec_can_send() {
            CapacityAnswer::Refuse {
                message: "stream is not in a sendable state"@,
                reset: self.streams.is_lost(id),
            }
        } else if least(amount, self.send_window(id)) > 0 {
            CapacityAnswer::Grant(least(amount, self.send_window(id)))
        } else {
            CapacityAnswer::Wait
        }
    }

    /// Send capacity is requested: the answer is given now, or when there is some.
    pub open spec fn capacity_requested(self, p: CapacityView) -> ConnView {
        let answer = self.capacity_answer(p.stream_id, p.amount);
        if answer is Wait {
            ConnView { pending_capacity: self.pending_capacity.push(p), ..self }
        } else {
            self.tell(answer.told_to(p.response_tx))
        }
    }

    /// A wish to know when one more stream can be opened.
    pub open spec fn ready_requested(self, ticket: Ticket) -> ConnView {
        if self.going_away {
            self.told_done(ticket, Err(ErrorView::connection(Reason::RefusedStream)))
        } else if self.streams.can_accept() {
            self.told_done(ticket, Ok(()))
        } else {
            ConnView { ready_waiters: self.ready_waiters.push(ticket), ..self }
        }
    }

    /// The first `n` streams fail with the connection: the readers of data and trailers
    /// of those that were not closed are told, and nothing more comes in on any.
    pub open spec fn streams_failed(self, n: int, reason: Reason) -> ConnView
        decreases n,
    {
        if n <= 0 {
            self
        } else {
            self.streams_failed(n - 1, reason).stream_failed(self.streams.ids[n - 1], reason)
        }
    }

    /// One stream fails with the connection.
    pub open spec fn stream_failed(self, id: u32, reason: Reason) -> ConnView {
        let s = self.streams.streams[id];
        let error = ErrorView::connection(reason);
        let c = if s.state is Closed {
            self
        } else {
            self.with_stream(
                id,
                Stream { state: StreamState::Closed, was_reset: true, ..s },
            ).tell_if(
                s.recv_open,
                EventView::DataError { stream_id: id, error },
            ).tell_if(s.recv_open, EventView::TrailersError { stream_id: id, error })
        };
        c.recv_closed(id)
    }

    /// GOAWAY is sent.
    pub open spec fn goaway_sent(self, out: WriterView, reason: Reason) -> WriterView {
        out.frame(GoAwayView::new(self.last_peer_stream_id, reason).bytes())
    }

    /// The connection is shut down at once: GOAWAY is sent and every stream fails.
    pub open spec fn shut_down(self, out: WriterView, reason: Reason) -> Step {
        let c = self.streams_failed(self.streams.ids.len() as int, reason);
        ConnView { going_away: true, ..c }.done(self.goaway_sent(out, reason).flush())
    }

    /// The connection's receive window is to be `size`, which is kept as its target. If
    /// that is more than the window holds, the window grows to it at once, and the peer is
    /// told. If it is less, the window shrinks as data arrives: nothing is given back until
    /// half of the target is used up.
    pub open spec fn target_window_set(self, out: WriterView, size: u32) -> Step {
        if size > MAX_31_BIT {
            self.fail(out, ErrorView::connection(Reason::FlowControlError))
        } else if size > self.conn_recv_flow.window {
            let increment = (size - self.conn_recv_flow.window) as u32;
            ConnView {
                conn_recv_flow: FlowControl { window: size as i32, ..self.conn_recv_flow },
                conn_recv_consumed: 0,
                conn_recv_target: size as i32,
                ..self
            }.done(
                out.frame(
                    (WindowUpdateView { stream_id: 0, size_increment: increment }).bytes(),
                ),
            )
        } else {
            ConnView { conn_recv_target: size as i32, ..self }.done(out)
        }
    }

    /// Streams are to start with a receive window of `size`: the peer is told, now or
    /// when it has acknowledged the last SETTINGS, and the windows of the streams that
    /// are not closed move by the difference.
    pub open spec fn initial_window_set(self, out: WriterView, size: u32) -> Step {
        if size > MAX_31_BIT {
            self.fail(out, ErrorView::connection(Reason::FlowControlError))
        } else {
            let (settings, sent) = ConnSettings {
                local: SettingValues { initial_window_size: size, ..self.settings.local },
                ..self.settings
            }.sent();
            let out = match sent {
                Some(f) => out.frame(f.bytes()),
                None => out,
            };
            let (streams, ok) = if size == self.settings.local.initial_window_size {
                (self.streams, true)
            } else {
                self.streams.resized(size as i32, Direction::Recv)
            };
            let c = ConnView { settings, streams, ..self };
            if ok {
                c.done(out)
            } else {
                c.fail(out, ErrorView::connection(Reason::FlowControlError))
            }
        }
    }

    /// A command comes in.
    #[verifier::opaque]
    pub open spec fn command_received(self, out: WriterView, cmd: CommandView) -> CommandStep {
        match cmd {
            CommandView::NewStream {
                headers,
                end_stream,
                response_tx,
            } => self.request_requested(out, headers, end_stream, response_tx),
            CommandView::SendHeaders {
                stream_id,
                headers,
                end_stream,
                response_tx,
            } => CommandStep {
                conn: self,
                out,
                job: Some(
                    JobView { stream_id, headers, end_stream, response_tx, opens: None },
                ),
            },
            CommandView::SendData {
                stream_id,
                data,
                end_stream,
                response_tx,
            } => self.send_requested(
                out,
                PendingView { stream_id, data, end_stream, response_tx },
            ),
            CommandView::SendTrailers { stream_id, trailers, response_tx } => CommandStep {
                conn: self,
                out,
                job: Some(
                    JobView {
                        stream_id,
                        headers: trailers,
                        end_stream: true,
                        response_tx,
                        opens: None,
                    },
                ),
            },
            CommandView::GoAway { response_tx } => ConnView { going_away: true, ..self }.told_done(
                response_tx,
                Ok(()),
            ).complete(self.goaway_sent(out, Reason::NoError)),
            CommandView::SendReset {
                stream_id,
                reason,
                response_tx,
            } => self.stream_closed(stream_id).told_done(response_tx, Ok(())).complete(
                out.frame(connection::rst_bytes(stream_id, reason)),
            ),
            CommandView::PollReady { response_tx } => self.ready_requested(response_tx).complete(
                out,
            ),
            CommandView::AbruptShutdown { reason, response_tx } => self.told(
                response_tx,
                self.shut_down(out, reason),
            ),
            CommandView::SetTargetWindowSize { size, response_tx } => self.told(
                response_tx,
                self.target_window_set(out, size),
            ),
            CommandView::SetInitialWindowSize { size, response_tx } => self.told(
                response_tx,
                self.initial_window_set(out, size),
            ),
            CommandView::ReserveCapacity {
                stream_id,
                amount,
                response_tx,
            } => self.capacity_requested(
                CapacityView { stream_id, amount, response_tx },
            ).complete(out),
        }
    }

    /// Whoever asked for `step` is told how it went.
    pub open spec fn told(self, ticket: Ticket, step: Step) -> CommandStep {
        step.conn.told_done(ticket, step.result).complete(step.out)
    }
}

/// What waits is counted with one more.
pub(crate) proof fn lemma_total_push(s: Seq<PendingView>, p: PendingView)
    ensures
        connection::total(s.push(p)) == connection::total(s) + p.data.len(),
    decreases s.len(),
{
    if s.len() == 0 {
        assert(s.push(p).drop_first() =~= Seq::empty());
        assert(connection::total(s.push(p).drop_first()) == 0);
    } else {
        lemma_total_push(s.drop_first(), p);
        assert(s.push(p).drop_first() =~= s.drop_first().push(p));
    }
}

/// How much waits to be sent after a try, and how much of it in the item itself.
pub(crate) proof fn lemma_send_tried_counts(c: ConnView, out: WriterView, p: PendingView)
    requires
        p.data.len() <= c.pending_send_bytes,
    ensures
        ({
            let step = c.send_tried(out, p);
            let left = match step.outcome {
                OutcomeView::Queued(q) => q.data.len(),
                _ => 0,
            };
            &&& step.conn.pending_send_bytes == c.pending_send_bytes - p.data.len() + left
            &&& left <= p.data.len()
            &&& step.conn.pending_sends == c.pending_sends
            &&& step.conn.max_send_buffer_size == c.max_send_buffer_size
        }),
{
    reveal(ConnView::send_tried);
    reveal(ConnView::data_sent);
}

proof fn lemma_data_sent_keeps_pending(
    c: ConnView,
    out: WriterView,
    id: u32,
    data: Seq<u8>,
    end_stream: bool,
)
    ensures
        ({
            let step = c.data_sent(out, id, data, end_stream);
            &&& step.conn.pending_send_bytes == c.pending_send_bytes
            &&& step.conn.pending_sends == c.pending_sends
            &&& step.conn.max_send_buffer_size == c.max_send_buffer_size
        }),
{
    reveal(ConnView::data_sent);
}

impl ConnState {
    /// Data is to be sent on a stream.
    fn cmd_send<W>(&mut self, item: PendingSend, writer: &mut FrameWriter<W>)
        requires
            old(self)@.wf(),
        ensures
            final(writer).spec_transport() == old(writer).spec_transport(),
            (CommandStep { conn: final(self)@, out: final(writer)@, job: None }) == old(
                self,
            )@.send_requested(old(writer)@, item@),
            final(self)@.wf(),
    {
        let data_len: usize = item.data.len();
        if data_len > self.max_send_buffer_size - self.pending_send_bytes {
            // Over the buffer limit: only allow if it fits entirely
            // in the current flow-control window (no queuing needed).
            let conn_avail: u32 = self.conn_send_flow.available();
            let stream_avail: u32 = match self.streams.get(&item.stream_id) {
                Some(s) => s.send_flow.available(),
                None => 0,
            };
            if (smaller(conn_avail, stream_avail) as usize) < data_len {
                self.answer(
                    item.response_tx,
                    Err(H2Error::Protocol("send buffer size limit exceeded".to_owned())),
                );
                return;
            }
            proof {
                lemma_data_sent_keeps_pending(
                    self@,
                    writer@,
                    item@.stream_id,
                    item@.data,
                    item@.end_stream,
                );
            }
            let result = self.cmd_send_data(item.stream_id, &item.data, item.end_stream, writer);
            self.answer(item.response_tx, result);
            return;
        }
        self.pending_send_bytes = self.pending_send_bytes + data_len;
        proof {
            lemma_send_tried_counts(self@, writer@, item@);
        }
        match self.try_send_or_queue(item, writer) {
            SendOutcome::Sent | SendOutcome::Errored => {},
            SendOutcome::Queued(p) => {
                proof {
                    lemma_total_push(self@.pending_sends, p@);
                }
                let ghost before = self@;
                self.pending_sends.push(p);
                assert(self@ =~= (ConnView {
                    pending_sends: before.pending_sends.push(p@),
                    ..before
                }));
            },
        }
    }

    /// A new request: its stream is opened. What comes back is the header list to be
    /// compressed next, or why there is none.
    pub fn cmd_new_stream(
        &mut self,
        headers: Vec<HeaderPair>,
        end_stream: bool,
        response_tx: Ticket,
    ) -> (r: Result<HeaderJob, H2Error>)
        requires
            old(self)@.wf(),
        ensures
            match old(self)@.stream_requested() {
                NewStream::Opened(c, id) => {
                    &&& r matches Ok(job) && job@ == (JobView {
                        stream_id: id,
                        headers: events::pairs(headers@),
                        end_stream,
                        response_tx,
                        opens: Some(
                            RecvView { stream_id: id, with_headers: old(self)@.is_client },
                        ),
                    })
                    &&& final(self)@ == c
                },
                NewStream::Refused(e) => {
                    &&& r matches Err(error) && error@ == e
                    &&& final(self)@ == old(self)@
                },
            },
            final(self)@.wf(),
    {
        if self.going_away || !self.streams.can_accept_stream() {
            return Err(H2Error::connection(Reason::RefusedStream));
        }
        let stream_id = self.streams.next_stream_id()?;
        let send_window: i32 = flow_control::to_signed(self.settings.remote().initial_window_size);
        let recv_window: i32 = flow_control::to_signed(self.settings.local().initial_window_size);
        // Client-initiated streams wait for response headers
        let recv = self.streams.insert_with_headers(
            stream_id,
            send_window,
            recv_window,
            self.is_client,
        );
        Ok(HeaderJob { stream_id, headers, end_stream, response_tx, opens: Some(recv) })
    }

    /// The header list of `job` was compressed to `header_block`: sends it.
    pub fn cmd_send_headers<W>(
        &mut self,
        job: HeaderJob,
        header_block: Bytes,
        writer: &mut FrameWriter<W>,
    )
        requires
            old(self)@.wf(),
        ensures
            final(writer).spec_transport() == old(writer).spec_transport(),
            (CommandStep { conn: final(self)@, out: final(writer)@, job: None }) == old(
                self,
            )@.headers_encoded(old(writer)@, job@, buf::content(header_block)),
            final(self)@.wf(),
    {
        let stream_id = job.stream_id;
        let mut frame = Headers::new(stream_id, header_block);
        if job.end_stream {
            frame.set_end_stream();
        }
        if let Some(s) = self.streams.get(&stream_id) {
            let mut s: Stream = *s;
            match s.state.send_headers(job.end_stream) {
                Ok(state) => {
                    s.state = state;
                    self.put_stream(stream_id, s);
                },
                Err(e) => {
                    self.tell_job(job, Err(e));
                    return;
                },
            }
        }
        let max_frame_size: usize = self.settings.remote().max_frame_size as usize;
        split::write_headers_with_continuation(writer, frame, max_frame_size);
        self.tell_job(job, Ok(()));
    }

    fn tell_job(&mut self, job: HeaderJob, result: Result<(), H2Error>)
        ensures
            final(self)@ == old(self)@.job_told(job@, error::outcome(result)),
    {
        match job.opens {
            Some(recv) => {
                let stream = match result {
                    Ok(()) => Ok((job.stream_id, recv)),
                    Err(e) => Err(e),
                };
                self.emit(Event::Opened { ticket: job.response_tx, stream });
            },
            None => self.answer(job.response_tx, result),
        }
    }

    /// Send a GOAWAY frame and mark the connection as going away.
    pub fn cmd_goaway<W>(&mut self, writer: &mut FrameWriter<W>)
        requires
            old(self)@.wf(),
        ensures
            final(writer).spec_transport() == old(writer).spec_transport(),
            final(self)@ == (ConnView { going_away: true, ..old(self)@ }),
            final(writer)@ == old(self)@.goaway_sent(old(writer)@, Reason::NoError),
            final(self)@.wf(),
    {
        let goaway = GoAway::new(self.last_peer_stream_id, Reason::NoError);
        writer.write_frame(&Frame::GoAway(goaway));
        self.going_away = true;
    }

    /// Send a GOAWAY with an error reason and close all open streams
    /// immediately.
    pub fn cmd_abrupt_shutdown<W>(&mut self, reason: Reason, writer: &mut FrameWriter<W>)
        requires
            old(self)@.wf(),
        ensures
            final(writer).spec_transport() == old(writer).spec_transport(),
            (Step { conn: final(self)@, out: final(writer)@, result: Ok(()) }) == old(
                self,
            )@.shut_down(old(writer)@, reason),
            final(self)@.wf(),
    {
        let goaway = GoAway::new(self.last_peer_stream_id, reason);
        writer.write_frame(&Frame::GoAway(goaway));
        let ids: Vec<StreamId> = self.streams.iter_ids();
        let ghost start = old(self)@;
        let ghost all = start.streams.ids;
        assert(forall|j: int| 0 <= j < ids@.len() ==> (#[trigger] ids@[j])@ == all[j]) by {
            assert(ids@.map_values(|id: StreamId| id@) =~= all);
        }
        let mut i: usize = 0;
        while i < ids.len()
            invariant
                start.wf(),
                self@.wf(),
                all == start.streams.ids,
                self@.streams.ids == all,
                ids@.len() == all.len(),
                forall|j: int| 0 <= j < ids@.len() ==> (#[trigger] ids@[j])@ == all[j],
                i <= ids@.len(),
                self@ == start.streams_failed(i as int, reason),
            decreases ids@.len() - i,
        {
            let id: StreamId = ids[i];
            assert(all.contains(id@)) by {
                assert(all[i as int] == id@);
            }
            assert(self@.streams.has(id@));
            let s: Stream = *self.streams.get(&id).unwrap();
            if !s.state.is_closed() {
                let mut closed: Stream = s;
                closed.state = s.state.reset();
                closed.was_reset = true;
                self.put_stream(id, closed);
                if s.recv_open {
                    self.emit(
                        Event::DataError { stream_id: id, error: H2Error::connection(reason) },
                    );
                    self.emit(
                        Event::TrailersError { stream_id: id, error: H2Error::connection(reason) },
                    );
                }
            }
            self.close_recv_senders(&id);
            i = i + 1;
        }
        self.going_away = true;
        writer.flush_buf();
    }

    /// Reserve send capacity on a stream.
    ///
    /// Immediately available capacity up to `amount`. If no capacity
    /// is available, the request is queued and will be fulfilled when
    /// WINDOW_UPDATE frames arrive.
    pub fn cmd_reserve_capacity(
        &mut self,
        stream_id: StreamId,
        amount: u32,
        response_tx: Ticket,
    )
        requires
            old(self)@.wf(),
        ensures
            final(self)@ == old(self)@.capacity_requested(
                CapacityView { stream_id: stream_id@, amount, response_tx },
            ),
            final(self)@.wf(),
    {
        match self.capacity_for(&stream_id, amount) {
            Some((amount, reset)) => {
                self.emit(Event::Granted { ticket: response_tx, amount, reset });
            },
            None => {
                self.pending_capacity.push(PendingCapacity { stream_id, amount, response_tx });
                proof {
                    let p = CapacityView { stream_id: stream_id@, amount, response_tx };
                    assert(self@.pending_capacity =~= old(self)@.pending_capacity.push(p));
                }
            },
        }
    }

    /// What to say to a request for send capacity, and whether that is because the stream
    /// was reset; `None` where there is nothing to say yet.
    pub(crate) fn capacity_for(&self, stream_id: &StreamId, amount: u32) -> (r: Option<
        (Result<u32, H2Error>, bool),
    >)
        requires
            self@.base_wf(),
        ensures
            match self@.capacity_answer(stream_id@, amount) {
                CapacityAnswer::Grant(n) => r == Some((Ok::<u32, H2Error>(n), false)),
                CapacityAnswer::Refuse { message, reset } => r matches Some((Err(e), was_reset))
                    && e@ == ErrorView::Protocol(message) && was_reset == reset,
                CapacityAnswer::Wait => r is None,
            },
    {
        match self.streams.get(stream_id) {
            Some(s) => {
                if !s.state.can_send() {
                    let message = "stream is not in a sendable state".to_owned();
                    return Some((Err(H2Error::Protocol(message)), s.was_reset));
                }
                let avail: u32 = smaller(self.conn_send_flow.available(), s.send_flow.available());
                let grant: u32 = smaller(amount, avail);
                if grant > 0 {
                    Some((Ok(grant), false))
                } else {
                    None
                }
            },
            None => Some((Err(H2Error::Protocol("stream not found".to_owned())), false)),
        }
    }

    /// Adjust the connection-level receive window size at runtime.
    ///
    /// If `size` is larger than the current window, a WINDOW_UPDATE is sent
    /// for the difference. If smaller, the window shrinks naturally as data
    /// arrives (there is no mechanism to shrink it immediately), and no WINDOW_UPDATE
    /// is sent until half of the new size is used up.
    pub fn cmd_set_target_window_size<W>(&mut self, size: u32, writer: &mut FrameWriter<W>) -> (r:
        Result<(), H2Error>)
        requires
            old(self)@.wf(),
        ensures
            final(writer).spec_transport() == old(writer).spec_transport(),
            (Step { conn: final(self)@, out: final(writer)@, result: error::outcome(r) }) == old(
                self,
            )@.target_window_set(old(writer)@, size),
            final(self)@.wf(),
    {
        if size > MAX_31_BIT {
            return Err(H2Error::connection(Reason::FlowControlError));
        }
        let current: i64 = self.conn_recv_flow.window_size() as i64;
        let target: i64 = size as i64;
        if target > current {
            let increment: u32 = (target - current) as u32;
            let wu = WindowUpdate::new(StreamId::zero(), increment);
            writer.write_frame(&Frame::WindowUpdate(wu));
            if self.conn_recv_flow.release(increment).is_err() {
                return Err(H2Error::connection(Reason::FlowControlError));
            }
            self.conn_recv_consumed = 0;
        }
        // Otherwise the window shrinks as data is consumed, without being replenished
        // until it is below the new target.
        self.conn_recv_target = size as i32;
        Ok(())
    }

    /// Change the INITIAL_WINDOW_SIZE for new streams via SETTINGS.
    ///
    /// Updates local settings and sends a SETTINGS frame. The delta is also
    /// applied to all existing open streams' receive windows.
    pub fn cmd_set_initial_window_size<W>(&mut self, size: u32, writer: &mut FrameWriter<W>) -> (r:
        Result<(), H2Error>)
        requires
            old(self)@.wf(),
        ensures
            final(writer).spec_transport() == old(writer).spec_transport(),
            (Step { conn: final(self)@, out: final(writer)@, result: error::outcome(r) }) == old(
                self,
            )@.initial_window_set(old(writer)@, size),
            final(self)@.wf(),
    {
        if size > MAX_31_BIT {
            return Err(H2Error::connection(Reason::FlowControlError));
        }
        let old_size: u32 = self.settings.local().initial_window_size;
        self.settings.set_local_initial_window_size(size);
        // The SETTINGS frame may be queued if waiting for ACK
        if let Some(frame) = self.settings.build_local_settings() {
            writer.write_frame(&Frame::Settings(frame));
        }
        if size != old_size {
            if !self.streams.resize_windows(size as i32, Direction::Recv) {
                return Err(H2Error::connection(Reason::FlowControlError));
            }
        }
        Ok(())
    }

    /// Handle a command from a user handle. What comes back is the header list to be
    /// compressed next, if there is one: [`cmd_send_headers`](Self::cmd_send_headers)
    /// is then called with the outcome.
    #[verifier::rlimit(40)]
    pub fn handle_command<W>(&mut self, cmd: Command, writer: &mut FrameWriter<W>) -> (r: Option<
        HeaderJob,
    >)
        requires
            old(self)@.wf(),
        ensures
            final(writer).spec_transport() == old(writer).spec_transport(),
            (CommandStep { conn: final(self)@, out: final(writer)@, job: job_view(r) }) == old(
                self,
            )@.command_received(old(writer)@, cmd@),
            final(self)@.wf(),
    {
        reveal(ConnView::command_received);
        match cmd {
            Command::NewStream { headers, end_stream, response_tx } => {
                match self.cmd_new_stream(headers, end_stream, response_tx) {
                    Ok(job) => return Some(job),
                    Err(e) => self.emit(Event::Opened { ticket: response_tx, stream: Err(e) }),
                }
            },
            Command::SendHeaders { stream_id, headers, end_stream, response_tx } => {
                return Some(HeaderJob { stream_id, headers, end_stream, response_tx, opens: None });
            },
            Command::SendData { stream_id, data, end_stream, response_tx } => {
                self.cmd_send(PendingSend { stream_id, data, end_stream, response_tx }, writer);
            },
            Command::SendTrailers { stream_id, trailers, response_tx } => {
                return Some(
                    HeaderJob {
                        stream_id,
                        headers: trailers,
                        end_stream: true,
                        response_tx,
                        opens: None,
                    },
                );
            },
            Command::GoAway { response_tx } => {
                self.cmd_goaway(writer);
                self.answer(response_tx, Ok(()));
            },
            Command::SendReset { stream_id, reason, response_tx } => {
                self.send_rst_stream(stream_id, reason, writer);
                self.answer(response_tx, Ok(()));
            },
            Command::PollReady { response_tx } => {
                self.cmd_poll_ready(response_tx);
            },
            Command::AbruptShutdown { reason, response_tx } => {
                self.cmd_abrupt_shutdown(reason, writer);
                self.answer(response_tx, Ok(()));
            },
            Command::ReserveCapacity { stream_id, amount, response_tx } => {
                self.cmd_reserve_capacity(stream_id, amount, response_tx);
            },
            Command::SetTargetWindowSize { size, response_tx } => {
                let result = self.cmd_set_target_window_size(size, writer);
                self.answer(response_tx, result);
            },
            Command::SetInitialWindowSize { size, response_tx } => {
                let result = self.cmd_set_initial_window_size(size, writer);
                self.answer(response_tx, result);
            },
        }
        None
    }

    /// A wish to know when one more stream can be opened.
    fn cmd_poll_ready(&mut self, response_tx: Ticket)
        requires
            old(self)@.wf(),
        ensures
            final(self)@ == old(self)@.ready_requested(response_tx),
            final(self)@.wf(),
    {
        if self.going_away {
            self.answer(response_tx, Err(H2Error::connection(Reason::RefusedStream)));
        } else if self.streams.can_accept_stream() {
            self.answer(response_tx, Ok(()));
        } else {
            self.ready_waiters.push(response_tx);
        }
    }
}

/// The header list as plain values, if there is one.
pub open spec fn job_view(j: Option<HeaderJob>) -> Option<JobView> {
    match j {
        Some(j) => Some(j@),
        None => None,
    }
}

} // verus!
