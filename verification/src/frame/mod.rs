//! HTTP/2 frames and their form on the wire.

pub mod control;
pub mod data;
pub mod headers;
pub mod wire;

use vstd::prelude::*;

pub use control::{GoAway, Ping, Priority, RstStream, Settings, SettingsView, WindowUpdate};
pub use data::Data;
pub use headers::{Continuation, Headers};

verus! {

/// Type code of DATA frames.
pub const FRAME_TYPE_DATA: u8 = 0x0;

/// Type code of HEADERS frames.
pub const FRAME_TYPE_HEADERS: u8 = 0x1;

/// Type code of PRIORITY frames.
pub const FRAME_TYPE_PRIORITY: u8 = 0x2;

/// Type code of RST_STREAM frames.
pub const FRAME_TYPE_RST_STREAM: u8 = 0x3;

/// Type code of SETTINGS frames.
pub const FRAME_TYPE_SETTINGS: u8 = 0x4;

/// Type code of PING frames.
pub const FRAME_TYPE_PING: u8 = 0x6;

/// Type code of GOAWAY frames.
pub const FRAME_TYPE_GOAWAY: u8 = 0x7;

/// Type code of WINDOW_UPDATE frames.
pub const FRAME_TYPE_WINDOW_UPDATE: u8 = 0x8;

/// Type code of CONTINUATION frames.
pub const FRAME_TYPE_CONTINUATION: u8 = 0x9;

/// The largest frame payload that a peer may send before anything else is agreed.
pub const DEFAULT_MAX_FRAME_SIZE: u32 = 16_384;

/// The largest frame payload that can be agreed.
pub const LARGEST_MAX_FRAME_SIZE: u32 = 16_777_215;

/// The largest flow-control window, and the largest stream identifier.
pub const MAX_31_BIT: u32 = 0x7fff_ffff;

/// The bytes with which a client opens a connection.
pub const PREFACE: &'static str = "PRI * HTTP/2.0\r\n\r\nSM\r\n\r\n";

/// The low 32 bits of a length.
pub open spec fn low32(n: int) -> u32 {
    (n % 0x1_0000_0000) as u32
}

/// The low 32 bits of a length.
pub fn truncate32(n: usize) -> (r: u32)
    ensures
        r == low32(n as int),
{
    (n as u64 % 0x1_0000_0000) as u32
}

/// A number as four bytes, the most significant first.
#[verifier::opaque]
pub open spec fn be32(n: u32) -> Seq<u8> {
    seq![
        (n / 0x100_0000) as u8,
        (n / 0x1_0000 % 0x100) as u8,
        (n / 0x100 % 0x100) as u8,
        (n % 0x100) as u8,
    ]
}

/// Appends a number as four bytes, the most significant first.
pub(crate) fn put_be32(dst: &mut Vec<u8>, n: u32)
    ensures
        final(dst)@ == old(dst)@ + be32(n),
{
    dst.push((n / 0x100_0000) as u8);
    dst.push((n / 0x1_0000 % 0x100) as u8);
    dst.push((n / 0x100 % 0x100) as u8);
    dst.push((n % 0x100) as u8);
    reveal(be32);
    assert(dst@ =~= old(dst)@ + be32(n));
}

/// A stream identifier: a number of 31 bits.
#[derive(Clone, Copy, Debug, PartialEq, Eq, Structural)]
pub struct StreamId(u32);

impl View for StreamId {
    type V = u32;

    closed spec fn view(&self) -> u32 {
        self.0
    }
}

impl StreamId {
    #[verifier::type_invariant]
    spec fn in_range(self) -> bool {
        self.0 <= MAX_31_BIT
    }

    /// The identifier that stands for the connection itself.
    pub fn zero() -> (id: StreamId)
        ensures
            id@ == 0,
    {
        StreamId(0)
    }

    /// The identifier with the low 31 bits of `value`; the reserved bit is dropped.
    pub fn new(value: u32) -> (id: StreamId)
        ensures
            id@ == value % 0x8000_0000,
    {
        StreamId(value % 0x8000_0000)
    }

    /// The number.
    pub fn value(&self) -> (v: u32)
        ensures
            v == self@,
            v <= MAX_31_BIT,
    {
        proof {
            use_type_invariant(self);
        }
        self.0
    }

    /// Whether this stands for the connection itself.
    pub fn is_zero(&self) -> (r: bool)
        ensures
            r == (self@ == 0),
    {
        self.0 == 0
    }
}

/// The nine bytes in front of every frame.
#[derive(Clone, Copy, Debug)]
pub struct FrameHeader {
    /// Length of the payload.
    pub length: u32,
    /// Type code.
    pub kind: u8,
    /// Flags.
    pub flags: u8,
    /// The stream that the frame belongs to.
    pub stream_id: StreamId,
}

/// A [`FrameHeader`] with the stream as a number.
pub struct FrameHeaderView {
    /// Length of the payload.
    pub length: u32,
    /// Type code.
    pub kind: u8,
    /// Flags.
    pub flags: u8,
    /// The stream that the frame belongs to.
    pub stream_id: u32,
}

impl View for FrameHeader {
    type V = FrameHeaderView;

    open spec fn view(&self) -> FrameHeaderView {
        FrameHeaderView {
            length: self.length,
            kind: self.kind,
            flags: self.flags,
            stream_id: self.stream_id@,
        }
    }
}

/// The header bytes of a frame: 24 bits of length, the type, the flags, and the
/// stream identifier.
#[verifier::opaque]
pub open spec fn header_bytes(kind: u8, flags: u8, stream_id: u32, length: u32) -> Seq<u8> {
    be32(length).skip(1) + seq![kind, flags] + be32(stream_id)
}

/// What nine header bytes say.
pub open spec fn parse_header(b: Seq<u8>) -> FrameHeaderView {
    FrameHeaderView {
        length: (b[0] * 0x1_0000 + b[1] * 0x100 + b[2]) as u32,
        kind: b[3],
        flags: b[4],
        stream_id: (b[5] % 0x80 * 0x100_0000 + b[6] * 0x1_0000 + b[7] * 0x100 + b[8]) as u32,
    }
}

impl FrameHeader {
    /// The header of a frame with a payload of `length` bytes.
    pub fn new(kind: u8, flags: u8, stream_id: StreamId, length: u32) -> (h: FrameHeader)
        ensures
            h@ == (FrameHeaderView { length, kind, flags, stream_id: stream_id@ }),
    {
        FrameHeader { length, kind, flags, stream_id }
    }

    /// The header as it goes over the wire.
    pub fn encode(&self) -> (b: [u8; 9])
        ensures
            b@ == header_bytes(self.kind, self.flags, self.stream_id@, self.length),
    {
        let n: u32 = self.length;
        let id: u32 = self.stream_id.value();
        let b: [u8; 9] = [
            (n / 0x1_0000 % 0x100) as u8,
            (n / 0x100 % 0x100) as u8,
            (n % 0x100) as u8,
            self.kind,
            self.flags,
            (id / 0x100_0000) as u8,
            (id / 0x1_0000 % 0x100) as u8,
            (id / 0x100 % 0x100) as u8,
            (id % 0x100) as u8,
        ];
        reveal(be32);
        reveal(header_bytes);
        assert(b@ =~= header_bytes(self.kind, self.flags, self.stream_id@, self.length));
        b
    }

    /// Reads a header. The reserved bit in front of the stream identifier is ignored.
    pub fn decode(b: &[u8; 9]) -> (h: FrameHeader)
        ensures
            h@ == parse_header(b@),
    {
        FrameHeader {
            length: (b[0] as u32) * 0x1_0000 + (b[1] as u32) * 0x100 + (b[2] as u32),
            kind: b[3],
            flags: b[4],
            stream_id: StreamId::new(
                ((b[5] % 0x80) as u32) * 0x100_0000 + (b[6] as u32) * 0x1_0000 + (b[7] as u32)
                    * 0x100 + (b[8] as u32),
            ),
        }
    }
}

/// A frame header reads back as it was written, as long as the length fits its
/// 24 bits and the stream identifier its 31.
pub proof fn lemma_header_round_trip(kind: u8, flags: u8, stream_id: u32, length: u32)
    requires
        length <= LARGEST_MAX_FRAME_SIZE,
        stream_id <= MAX_31_BIT,
    ensures
        header_bytes(kind, flags, stream_id, length).len() == 9,
        parse_header(header_bytes(kind, flags, stream_id, length)) == (FrameHeaderView {
            length,
            kind,
            flags,
            stream_id,
        }),
{
    reveal(be32);
    reveal(header_bytes);
    let b = header_bytes(kind, flags, stream_id, length);
    assert(b[0] == (length / 0x1_0000 % 0x100) as u8);
    assert(b[1] == (length / 0x100 % 0x100) as u8);
    assert(b[2] == (length % 0x100) as u8);
    assert(b[5] == (stream_id / 0x100_0000) as u8);
    assert(b[6] == (stream_id / 0x1_0000 % 0x100) as u8);
    assert(b[7] == (stream_id / 0x100 % 0x100) as u8);
    assert(b[8] == (stream_id % 0x100) as u8);
}

/// A frame.
#[derive(Debug)]
pub enum Frame {
    /// Message data.
    Data(Data),
    /// Header fields.
    Headers(Headers),
    /// Advice on priorities.
    Priority(Priority),
    /// The end of one stream.
    RstStream(RstStream),
    /// Parameters of the connection.
    Settings(Settings),
    /// A sign of life.
    Ping(Ping),
    /// The end of the connection.
    GoAway(GoAway),
    /// More room in a flow-control window.
    WindowUpdate(WindowUpdate),
    /// More header fields.
    Continuation(Continuation),
}

/// A [`Frame`] as plain values.
pub enum FrameView {
    /// See [`Frame::Data`].
    Data(data::DataView),
    /// See [`Frame::Headers`].
    Headers(headers::HeadersView),
    /// See [`Frame::Priority`].
    Priority(control::PriorityView),
    /// See [`Frame::RstStream`].
    RstStream(control::RstStreamView),
    /// See [`Frame::Settings`].
    Settings(SettingsView),
    /// See [`Frame::Ping`].
    Ping(control::PingView),
    /// See [`Frame::GoAway`].
    GoAway(control::GoAwayView),
    /// See [`Frame::WindowUpdate`].
    WindowUpdate(control::WindowUpdateView),
    /// See [`Frame::Continuation`].
    Continuation(headers::ContinuationView),
}

impl View for Frame {
    type V = FrameView;

    open spec fn view(&self) -> FrameView {
        match *self {
            Frame::Data(f) => FrameView::Data(f@),
            Frame::Headers(f) => FrameView::Headers(f@),
            Frame::Priority(f) => FrameView::Priority(f@),
            Frame::RstStream(f) => FrameView::RstStream(f@),
            Frame::Settings(f) => FrameView::Settings(f@),
            Frame::Ping(f) => FrameView::Ping(f@),
            Frame::GoAway(f) => FrameView::GoAway(f@),
            Frame::WindowUpdate(f) => FrameView::WindowUpdate(f@),
            Frame::Continuation(f) => FrameView::Continuation(f@),
        }
    }
}

impl FrameView {
    /// The frame on the wire.
    pub open spec fn bytes(self) -> Seq<u8> {
        match self {
            FrameView::Data(f) => f.bytes(),
            FrameView::Headers(f) => f.bytes(),
            FrameView::Priority(f) => f.bytes(),
            FrameView::RstStream(f) => f.bytes(),
            FrameView::Settings(f) => f.bytes(),
            FrameView::Ping(f) => f.bytes(),
            FrameView::GoAway(f) => f.bytes(),
            FrameView::WindowUpdate(f) => f.bytes(),
            FrameView::Continuation(f) => f.bytes(),
        }
    }
}

impl Frame {
    /// Appends the frame, header and payload, to `dst`.
    pub fn encode(&self, dst: &mut Vec<u8>)
        ensures
            final(dst)@ == old(dst)@ + self@.bytes(),
    {
        match self {
            Frame::Data(f) => f.encode(dst),
            Frame::Headers(f) => f.encode(dst),
            Frame::Priority(f) => f.encode(dst),
            Frame::RstStream(f) => f.encode(dst),
            Frame::Settings(f) => f.encode(dst),
            Frame::Ping(f) => f.encode(dst),
            Frame::GoAway(f) => f.encode(dst),
            Frame::WindowUpdate(f) => f.encode(dst),
            Frame::Continuation(f) => f.encode(dst),
        }
    }
}

} // verus!
