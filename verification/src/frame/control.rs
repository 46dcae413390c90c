//! Frames that carry no message data: SETTINGS, PING, GOAWAY, RST_STREAM,
//! WINDOW_UPDATE and PRIORITY.

use super::{
    FrameHeader, StreamId, DEFAULT_MAX_FRAME_SIZE, FRAME_TYPE_GOAWAY, FRAME_TYPE_PING,
    FRAME_TYPE_PRIORITY, FRAME_TYPE_RST_STREAM, FRAME_TYPE_SETTINGS, FRAME_TYPE_WINDOW_UPDATE,
    LARGEST_MAX_FRAME_SIZE, MAX_31_BIT,
};
use crate::buf;
use crate::error::Reason;
use crate::frame;
use crate::frame::headers;
use bytes::Bytes;
use vstd::prelude::*;

verus! {

/// The parameters of a SETTINGS frame. What is `None` is not in the frame.
#[derive(Clone, Copy, Debug, PartialEq, Eq, Structural)]
pub struct SettingsView {
    /// Whether the frame acknowledges the peer's settings.
    pub ack: bool,
    /// Size of the header compression table.
    pub header_table_size: Option<u32>,
    /// Whether the server may push.
    pub enable_push: Option<bool>,
    /// How many streams may be open at once.
    pub max_concurrent_streams: Option<u32>,
    /// The window that streams start with.
    pub initial_window_size: Option<u32>,
    /// The largest frame payload.
    pub max_frame_size: Option<u32>,
    /// The largest header list.
    pub max_header_list_size: Option<u32>,
}

/// One parameter on the wire.
pub open spec fn parameter(id: u8, value: Option<u32>) -> Seq<u8> {
    match value {
        Some(v) => seq![0u8, id] + frame::be32(v),
        None => Seq::empty(),
    }
}

impl SettingsView {
    /// A frame without parameters.
    pub open spec fn empty() -> SettingsView {
        SettingsView {
            ack: false,
            header_table_size: None,
            enable_push: None,
            max_concurrent_streams: None,
            initial_window_size: None,
            max_frame_size: None,
            max_header_list_size: None,
        }
    }

    /// The acknowledgement.
    pub open spec fn acknowledgement() -> SettingsView {
        SettingsView { ack: true, ..SettingsView::empty() }
    }

    /// Whether every parameter is within the range that the protocol gives it.
    pub open spec fn valid(self) -> bool {
        &&& self.initial_window_size matches Some(w) ==> w <= MAX_31_BIT
        &&& self.max_frame_size matches Some(m) ==> DEFAULT_MAX_FRAME_SIZE <= m
            <= LARGEST_MAX_FRAME_SIZE
    }

    /// Whether frames may have a payload, as far as this frame says.
    pub open spec fn allows_payload(self) -> bool {
        self.max_frame_size != Some(0u32)
    }

    /// The parameters on the wire, by their identifiers.
    pub open spec fn payload(self) -> Seq<u8> {
        parameter(1, self.header_table_size) + parameter(
            2,
            match self.enable_push {
                Some(b) => Some(
                    if b {
                        1u32
                    } else {
                        0u32
                    },
                ),
                None => None,
            },
        ) + parameter(3, self.max_concurrent_streams) + parameter(4, self.initial_window_size)
            + parameter(5, self.max_frame_size) + parameter(6, self.max_header_list_size)
    }

    /// The frame on the wire.
    pub open spec fn bytes(self) -> Seq<u8> {
        frame::header_bytes(
            FRAME_TYPE_SETTINGS,
            if self.ack {
                0x1
            } else {
                0x0
            },
            0,
            self.payload().len() as u32,
        ) + self.payload()
    }
}

fn put_parameter(dst: &mut Vec<u8>, id: u8, value: Option<u32>)
    ensures
        final(dst)@ == old(dst)@ + parameter(id, value),
{
    if let Some(v) = value {
        dst.push(0);
        dst.push(id);
        frame::put_be32(dst, v);
        assert(dst@ =~= old(dst)@ + parameter(id, value));
    } else {
        assert(dst@ =~= old(dst)@ + parameter(id, value));
    }
}

/// SETTINGS frame.
#[derive(Clone, Copy, Debug)]
pub struct Settings {
    values: SettingsView,
}

impl View for Settings {
    type V = SettingsView;

    closed spec fn view(&self) -> SettingsView {
        self.values
    }
}

impl Settings {
    /// A frame without parameters.
    pub fn new() -> (s: Settings)
        ensures
            s@ == SettingsView::empty(),
    {
        Settings {
            values: SettingsView {
                ack: false,
                header_table_size: None,
                enable_push: None,
                max_concurrent_streams: None,
                initial_window_size: None,
                max_frame_size: None,
                max_header_list_size: None,
            },
        }
    }

    /// The acknowledgement of the peer's settings.
    pub fn ack() -> (s: Settings)
        ensures
            s@ == SettingsView::acknowledgement(),
    {
        Settings {
            values: SettingsView {
                ack: true,
                header_table_size: None,
                enable_push: None,
                max_concurrent_streams: None,
                initial_window_size: None,
                max_frame_size: None,
                max_header_list_size: None,
            },
        }
    }

    /// A frame with these parameters, unless one of them is out of range.
    pub fn with_values(values: SettingsView) -> (r: Option<Settings>)
        ensures
            match r {
                Some(s) => values.valid() && s@ == values,
                None => !values.valid(),
            },
    {
        if let Some(w) = values.initial_window_size {
            if w > MAX_31_BIT {
                return None;
            }
        }
        if let Some(m) = values.max_frame_size {
            if m < DEFAULT_MAX_FRAME_SIZE || m > LARGEST_MAX_FRAME_SIZE {
                return None;
            }
        }
        Some(Settings { values })
    }

    /// A frame with these parameters, be they in range or not.
    pub(crate) fn announcing(values: SettingsView) -> (s: Settings)
        ensures
            s@ == values,
    {
        Settings { values }
    }

    /// Whether frames may have a payload, as far as this frame says.
    pub fn allows_payload(&self) -> (r: bool)
        ensures
            r == self@.allows_payload(),
    {
        match self.values.max_frame_size {
            Some(size) => size > 0,
            None => true,
        }
    }

    /// The parameters.
    pub fn values(&self) -> (v: SettingsView)
        ensures
            v == self@,
    {
        self.values
    }

    /// Whether the frame acknowledges the peer's settings.
    pub fn is_ack(&self) -> (r: bool)
        ensures
            r == self@.ack,
    {
        self.values.ack
    }

    /// How many streams may be open at once, where the frame says so.
    pub fn max_concurrent_streams(&self) -> (r: Option<u32>)
        ensures
            r == self@.max_concurrent_streams,
    {
        self.values.max_concurrent_streams
    }

    /// The window that streams start with, where the frame says so.
    pub fn initial_window_size(&self) -> (r: Option<u32>)
        ensures
            r == self@.initial_window_size,
    {
        self.values.initial_window_size
    }

    /// Appends the frame to `dst`.
    pub fn encode(&self, dst: &mut Vec<u8>)
        ensures
            final(dst)@ == old(dst)@ + self@.bytes(),
    {
        let v: SettingsView = self.values;
        let mut payload: Vec<u8> = Vec::new();
        put_parameter(&mut payload, 1, v.header_table_size);
        let push: Option<u32> = match v.enable_push {
            Some(b) => Some(
                if b {
                    1u32
                } else {
                    0u32
                },
            ),
            None => None,
        };
        put_parameter(&mut payload, 2, push);
        put_parameter(&mut payload, 3, v.max_concurrent_streams);
        put_parameter(&mut payload, 4, v.initial_window_size);
        put_parameter(&mut payload, 5, v.max_frame_size);
        put_parameter(&mut payload, 6, v.max_header_list_size);
        assert(payload@ =~= v.payload());
        let flags: u8 = if v.ack {
            0x1
        } else {
            0x0
        };
        let head: [u8; 9] = FrameHeader::new(
            FRAME_TYPE_SETTINGS,
            flags,
            StreamId::zero(),
            payload.len() as u32,
        ).encode();
        buf::extend(dst, head.as_slice());
        buf::extend(dst, payload.as_slice());
        assert(dst@ =~= old(dst)@ + self@.bytes());
    }
}

/// RST_STREAM frame.
#[derive(Clone, Copy, Debug)]
pub struct RstStream {
    stream_id: StreamId,
    reason: Reason,
}

/// A [`RstStream`] frame as plain values.
pub struct RstStreamView {
    /// The stream that is ended.
    pub stream_id: u32,
    /// Why.
    pub reason: Reason,
}

impl View for RstStream {
    type V = RstStreamView;

    closed spec fn view(&self) -> RstStreamView {
        RstStreamView { stream_id: self.stream_id@, reason: self.reason }
    }
}

impl RstStreamView {
    /// The frame on the wire.
    pub open spec fn bytes(self) -> Seq<u8> {
        frame::header_bytes(FRAME_TYPE_RST_STREAM, 0, self.stream_id, 4) + frame::be32(
            self.reason.spec_code(),
        )
    }
}

impl RstStream {
    /// Ends `stream_id` for `reason`.
    pub fn new(stream_id: StreamId, reason: Reason) -> (f: RstStream)
        ensures
            f@ == (RstStreamView { stream_id: stream_id@, reason }),
    {
        RstStream { stream_id, reason }
    }

    /// The stream that is ended.
    pub fn stream_id(&self) -> (id: StreamId)
        ensures
            id@ == self@.stream_id,
    {
        self.stream_id
    }

    /// Why it is ended.
    pub fn reason(&self) -> (r: Reason)
        ensures
            r == self@.reason,
    {
        self.reason
    }

    /// Appends the frame to `dst`.
    pub fn encode(&self, dst: &mut Vec<u8>)
        ensures
            final(dst)@ == old(dst)@ + self@.bytes(),
    {
        let head: [u8; 9] = FrameHeader::new(
            FRAME_TYPE_RST_STREAM,
            0,
            self.stream_id,
            4,
        ).encode();
        buf::extend(dst, head.as_slice());
        frame::put_be32(dst, self.reason.code());
        assert(dst@ =~= old(dst)@ + self@.bytes());
    }
}

/// PING frame.
#[derive(Clone, Copy, Debug)]
pub struct Ping {
    ack: bool,
    opaque_data: [u8; 8],
}

/// A [`Ping`] frame as plain values.
pub struct PingView {
    /// Whether the frame answers a PING.
    pub ack: bool,
    /// The eight bytes that the answer repeats.
    pub opaque_data: Seq<u8>,
}

impl View for Ping {
    type V = PingView;

    closed spec fn view(&self) -> PingView {
        PingView { ack: self.ack, opaque_data: self.opaque_data@ }
    }
}

impl PingView {
    /// The frame on the wire.
    pub open spec fn bytes(self) -> Seq<u8> {
        frame::header_bytes(
            FRAME_TYPE_PING,
            if self.ack {
                0x1
            } else {
                0x0
            },
            0,
            8,
        ) + self.opaque_data
    }
}

impl Ping {
    /// Asks the peer for an answer.
    pub fn new(opaque_data: [u8; 8]) -> (f: Ping)
        ensures
            f@ == (PingView { ack: false, opaque_data: opaque_data@ }),
    {
        Ping { ack: false, opaque_data }
    }

    /// Answers the peer's PING.
    pub fn pong(opaque_data: [u8; 8]) -> (f: Ping)
        ensures
            f@ == (PingView { ack: true, opaque_data: opaque_data@ }),
    {
        Ping { ack: true, opaque_data }
    }

    /// Whether the frame answers a PING.
    pub fn is_ack(&self) -> (r: bool)
        ensures
            r == self@.ack,
    {
        self.ack
    }

    /// The eight bytes that the answer repeats.
    pub fn opaque_data(&self) -> (d: &[u8; 8])
        ensures
            d@ == self@.opaque_data,
    {
        &self.opaque_data
    }

    /// Appends the frame to `dst`.
    pub fn encode(&self, dst: &mut Vec<u8>)
        ensures
            final(dst)@ == old(dst)@ + self@.bytes(),
    {
        let flags: u8 = if self.ack {
            0x1
        } else {
            0x0
        };
        let head: [u8; 9] = FrameHeader::new(FRAME_TYPE_PING, flags, StreamId::zero(), 8).encode();
        buf::extend(dst, head.as_slice());
        buf::extend(dst, self.opaque_data.as_slice());
        assert(dst@ =~= old(dst)@ + self@.bytes());
    }
}

/// GOAWAY frame.
#[derive(Debug)]
pub struct GoAway {
    last_stream_id: StreamId,
    error_code: Reason,
    debug_data: Bytes,
}

/// A [`GoAway`] frame as plain values.
pub struct GoAwayView {
    /// The last stream that the sender may have processed.
    pub last_stream_id: u32,
    /// Why it goes.
    pub error_code: Reason,
    /// What it has to add.
    pub debug_data: Seq<u8>,
}

impl View for GoAway {
    type V = GoAwayView;

    closed spec fn view(&self) -> GoAwayView {
        GoAwayView {
            last_stream_id: self.last_stream_id@,
            error_code: self.error_code,
            debug_data: buf::content(self.debug_data),
        }
    }
}

impl GoAwayView {
    /// A frame without debug data.
    pub open spec fn new(last_stream_id: u32, error_code: Reason) -> GoAwayView {
        GoAwayView { last_stream_id, error_code, debug_data: Seq::empty() }
    }

    /// The frame on the wire.
    pub open spec fn bytes(self) -> Seq<u8> {
        frame::header_bytes(
            FRAME_TYPE_GOAWAY,
            0,
            0,
            frame::low32((8 + self.debug_data.len()) as int),
        ) + frame::be32(self.last_stream_id) + frame::be32(self.error_code.spec_code())
            + self.debug_data
    }
}

impl GoAway {
    /// A frame without debug data.
    pub fn new(last_stream_id: StreamId, error_code: Reason) -> (f: GoAway)
        ensures
            f@ == GoAwayView::new(last_stream_id@, error_code),
    {
        GoAway { last_stream_id, error_code, debug_data: Bytes::new() }
    }

    /// A frame with debug data.
    pub fn with_debug_data(
        last_stream_id: StreamId,
        error_code: Reason,
        debug_data: Bytes,
    ) -> (f: GoAway)
        ensures
            f@ == (GoAwayView {
                last_stream_id: last_stream_id@,
                error_code,
                debug_data: buf::content(debug_data),
            }),
    {
        GoAway { last_stream_id, error_code, debug_data }
    }

    /// The last stream that the sender may have processed.
    pub fn last_stream_id(&self) -> (id: StreamId)
        ensures
            id@ == self@.last_stream_id,
    {
        self.last_stream_id
    }

    /// Why the sender goes.
    pub fn error_code(&self) -> (r: Reason)
        ensures
            r == self@.error_code,
    {
        self.error_code
    }

    /// What the sender has to add.
    pub fn debug_data(&self) -> (d: &Bytes)
        ensures
            buf::content(*d) == self@.debug_data,
    {
        &self.debug_data
    }

    /// Appends the frame to `dst`.
    pub fn encode(&self, dst: &mut Vec<u8>)
        ensures
            final(dst)@ == old(dst)@ + self@.bytes(),
    {
        let length: u64 = (frame::truncate32(self.debug_data.len()) as u64 + 8) % 0x1_0000_0000;
        let head: [u8; 9] = FrameHeader::new(
            FRAME_TYPE_GOAWAY,
            0,
            StreamId::zero(),
            length as u32,
        ).encode();
        buf::extend(dst, head.as_slice());
        frame::put_be32(dst, self.last_stream_id.value());
        frame::put_be32(dst, self.error_code.code());
        buf::extend(dst, buf::as_slice(&self.debug_data));
        assert(dst@ =~= old(dst)@ + self@.bytes());
    }
}

/// WINDOW_UPDATE frame.
#[derive(Clone, Copy, Debug)]
pub struct WindowUpdate {
    stream_id: StreamId,
    size_increment: u32,
}

/// A [`WindowUpdate`] frame as plain values.
pub struct WindowUpdateView {
    /// The stream whose window grows; zero is the connection.
    pub stream_id: u32,
    /// By how much.
    pub size_increment: u32,
}

impl View for WindowUpdate {
    type V = WindowUpdateView;

    closed spec fn view(&self) -> WindowUpdateView {
        WindowUpdateView { stream_id: self.stream_id@, size_increment: self.size_increment }
    }
}

impl WindowUpdateView {
    /// The frame on the wire.
    pub open spec fn bytes(self) -> Seq<u8> {
        frame::header_bytes(FRAME_TYPE_WINDOW_UPDATE, 0, self.stream_id, 4) + frame::be32(
            self.size_increment,
        )
    }
}

impl WindowUpdate {
    /// Lets the window of `stream_id` grow by `size_increment`.
    pub fn new(stream_id: StreamId, size_increment: u32) -> (f: WindowUpdate)
        ensures
            f@ == (WindowUpdateView { stream_id: stream_id@, size_increment }),
    {
        WindowUpdate { stream_id, size_increment }
    }

    /// The stream whose window grows; zero is the connection.
    pub fn stream_id(&self) -> (id: StreamId)
        ensures
            id@ == self@.stream_id,
    {
        self.stream_id
    }

    /// By how much the window grows.
    pub fn size_increment(&self) -> (n: u32)
        ensures
            n == self@.size_increment,
    {
        self.size_increment
    }

    /// Appends the frame to `dst`.
    pub fn encode(&self, dst: &mut Vec<u8>)
        ensures
            final(dst)@ == old(dst)@ + self@.bytes(),
    {
        let head: [u8; 9] = FrameHeader::new(
            FRAME_TYPE_WINDOW_UPDATE,
            0,
            self.stream_id,
            4,
        ).encode();
        buf::extend(dst, head.as_slice());
        frame::put_be32(dst, self.size_increment);
        assert(dst@ =~= old(dst)@ + self@.bytes());
    }
}

/// PRIORITY frame.
#[derive(Clone, Copy, Debug)]
pub struct Priority {
    stream_id: StreamId,
    exclusive: bool,
    dependency: StreamId,
    weight: u8,
}

/// A [`Priority`] frame as plain values.
pub struct PriorityView {
    /// The stream whose priority is stated.
    pub stream_id: u32,
    /// Whether the dependency is exclusive.
    pub exclusive: bool,
    /// The stream that it depends on.
    pub dependency: u32,
    /// The weight of the dependency.
    pub weight: u8,
}

impl View for Priority {
    type V = PriorityView;

    closed spec fn view(&self) -> PriorityView {
        PriorityView {
            stream_id: self.stream_id@,
            exclusive: self.exclusive,
            dependency: self.dependency@,
            weight: self.weight,
        }
    }
}

impl PriorityView {
    /// The frame on the wire.
    pub open spec fn bytes(self) -> Seq<u8> {
        frame::header_bytes(FRAME_TYPE_PRIORITY, 0, self.stream_id, 5) + headers::dependency_bytes(
            self.exclusive,
            self.dependency,
        ) + seq![self.weight]
    }
}

impl Priority {
    /// States the priority of `stream_id`.
    pub fn new(
        stream_id: StreamId,
        exclusive: bool,
        dependency: StreamId,
        weight: u8,
    ) -> (f: Priority)
        ensures
            f@ == (PriorityView {
                stream_id: stream_id@,
                exclusive,
                dependency: dependency@,
                weight,
            }),
    {
        Priority { stream_id, exclusive, dependency, weight }
    }

    /// Appends the frame to `dst`.
    pub fn encode(&self, dst: &mut Vec<u8>)
        ensures
            final(dst)@ == old(dst)@ + self@.bytes(),
    {
        let head: [u8; 9] = FrameHeader::new(FRAME_TYPE_PRIORITY, 0, self.stream_id, 5).encode();
        buf::extend(dst, head.as_slice());
        headers::put_dependency(dst, self.exclusive, self.dependency);
        dst.push(self.weight);
        assert(dst@ =~= old(dst)@ + self@.bytes());
    }
}

/// Settings are in range exactly if the initial window is one that a window can have, and the
/// frame size is between the least and the largest that can be agreed; a frame that states
/// neither is.
pub proof fn lemma_settings_in_range(s: SettingsView)
    ensures
        s.valid() <==> {
            &&& s.initial_window_size matches Some(w) ==> w <= 0x7fff_ffff
            &&& s.max_frame_size matches Some(m) ==> 16_384 <= m <= 16_777_215
        },
        s.valid() ==> s.allows_payload(),
{
}

} // verus!
