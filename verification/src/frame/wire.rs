//! Frames as whoever reads the wire sees them.

use super::{LARGEST_MAX_FRAME_SIZE, MAX_31_BIT};
use crate::codec::writer;
use crate::codec::writer::WriterView;
use crate::error::Reason;
use crate::frame;
use crate::frame::control;
use crate::frame::control::{
    GoAwayView, PingView, PriorityView, RstStreamView, WindowUpdateView,
};
use crate::frame::data::DataView;
use crate::frame::headers::HeadersView;
use crate::frame::{FrameView, SettingsView};
use vstd::prelude::*;

verus! {

/// A frame as it stands on the wire: what its header says, and its payload.
#[verifier::ext_equal]
pub struct RawFrame {
    /// Type code.
    pub kind: u8,
    /// Flags.
    pub flags: u8,
    /// The stream that the frame belongs to.
    pub stream_id: u32,
    /// Payload.
    pub payload: Seq<u8>,
}

/// The frames that a reader finds in `bytes`, one after the other; `None` where the bytes do
/// not end with a frame.
pub open spec fn read_frames(bytes: Seq<u8>) -> Option<Seq<RawFrame>>
    decreases bytes.len(),
{
    if bytes.len() == 0 {
        Some(Seq::empty())
    } else if bytes.len() < 9 {
        None
    } else {
        let end = 9 + (bytes[0] * 0x1_0000 + bytes[1] * 0x100 + bytes[2]);
        if end > bytes.len() {
            None
        } else {
            match read_frames(bytes.skip(end)) {
                Some(rest) => Some(
                    seq![
                        RawFrame {
                            kind: bytes[3],
                            flags: bytes[4],
                            stream_id: (number(bytes.subrange(5, 9)) % 0x8000_0000) as u32,
                            payload: bytes.subrange(9, end),
                        },
                    ] + rest,
                ),
                None => None,
            }
        }
    }
}

/// The number that four bytes make up, the most significant first.
pub open spec fn number(b: Seq<u8>) -> int {
    b[0] * 0x100_0000 + b[1] * 0x1_0000 + b[2] * 0x100 + b[3]
}

/// Whether a writer was given exactly `frames`, in this order, between two moments.
pub open spec fn wrote(before: WriterView, after: WriterView, frames: Seq<RawFrame>) -> bool {
    exists|bytes: Seq<u8>|
        after.wire() == before.wire() + bytes && #[trigger] read_frames(bytes) == Some(frames)
}

/// A WINDOW_UPDATE frame.
pub open spec fn window_update(id: u32, increment: u32) -> RawFrame {
    RawFrame { kind: 8, flags: 0, stream_id: id, payload: frame::be32(increment) }
}

/// A RST_STREAM frame.
pub open spec fn rst_stream(id: u32, code: u32) -> RawFrame {
    RawFrame { kind: 3, flags: 0, stream_id: id, payload: frame::be32(code) }
}

/// A GOAWAY frame without debug data.
pub open spec fn goaway(last: u32, code: u32) -> RawFrame {
    RawFrame { kind: 7, flags: 0, stream_id: 0, payload: frame::be32(last) + frame::be32(code) }
}

/// The answer to a PING frame.
pub open spec fn pong(data: Seq<u8>) -> RawFrame {
    RawFrame { kind: 6, flags: 1, stream_id: 0, payload: data }
}

/// The acknowledgement of SETTINGS.
pub open spec fn settings_ack() -> RawFrame {
    RawFrame { kind: 4, flags: 1, stream_id: 0, payload: Seq::empty() }
}

/// The parameters that a reader finds in the payload of SETTINGS, by their identifiers.
pub open spec fn read_parameters(payload: Seq<u8>) -> Seq<(int, int)>
    decreases payload.len(),
{
    if payload.len() < 6 {
        Seq::empty()
    } else {
        seq![(payload[0] * 0x100 + payload[1], number(payload.subrange(2, 6)))]
            + read_parameters(payload.skip(6))
    }
}

/// The message data that `frames` carry for a stream.
pub open spec fn data_on(frames: Seq<RawFrame>, id: u32) -> Seq<u8>
    decreases frames.len(),
{
    if frames.len() == 0 {
        Seq::empty()
    } else {
        let f = frames.last();
        data_on(frames.drop_last(), id) + if f.kind == 0 && f.stream_id == id {
            f.payload
        } else {
            Seq::empty()
        }
    }
}

/// The increments that `frames` bring to the window of a stream, or of the connection, which
/// is stream 0.
pub open spec fn increments_on(frames: Seq<RawFrame>, id: u32) -> Seq<int>
    decreases frames.len(),
{
    if frames.len() == 0 {
        Seq::empty()
    } else {
        let f = frames.last();
        increments_on(frames.drop_last(), id) + if f.kind == 8 && f.stream_id == id {
            seq![number(f.payload)]
        } else {
            Seq::empty()
        }
    }
}

/// Whether a frame ends the sender's side of its stream.
pub open spec fn ends_stream(f: RawFrame) -> bool {
    (f.kind == 0 || f.kind == 1) && f.flags % 2 == 1
}

/// A number that was written as four bytes is read back.
pub proof fn lemma_numbers_read_back(n: u32)
    ensures
        frame::be32(n).len() == 4,
        number(frame::be32(n)) == n,
{
    reveal(frame::be32);
    assert(n == n / 0x100_0000 * 0x100_0000 + n / 0x1_0000 % 0x100 * 0x1_0000 + n / 0x100 % 0x100
        * 0x100 + n % 0x100) by (nonlinear_arith);
}

/// A frame that was written as a header and a payload is read back.
pub proof fn lemma_frame_reads_back(kind: u8, flags: u8, id: u32, payload: Seq<u8>)
    requires
        id <= MAX_31_BIT,
        payload.len() <= LARGEST_MAX_FRAME_SIZE,
    ensures
        read_frames(frame::header_bytes(kind, flags, id, payload.len() as u32) + payload) == Some(
            seq![RawFrame { kind, flags, stream_id: id, payload }],
        ),
{
    let len = payload.len() as u32;
    let header = frame::header_bytes(kind, flags, id, len);
    let bytes = header + payload;
    lemma_numbers_read_back(len);
    lemma_numbers_read_back(id);
    assert(header.len() == 9 && header[3] == kind && header[4] == flags && header.subrange(5, 9)
        == frame::be32(id) && header.take(3) == frame::be32(len).skip(1)) by {
        reveal(frame::header_bytes);
        assert(header.subrange(5, 9) =~= frame::be32(id));
        assert(header.take(3) =~= frame::be32(len).skip(1));
    }
    assert(frame::be32(len)[0] == 0) by {
        reveal(frame::be32);
    }
    assert(header[0] == header.take(3)[0] && header[1] == header.take(3)[1] && header[2]
        == header.take(3)[2]);
    assert(bytes[0] * 0x1_0000 + bytes[1] * 0x100 + bytes[2] == len);
    assert(bytes.subrange(5, 9) =~= header.subrange(5, 9));
    assert(bytes.subrange(9, 9 + len) =~= payload);
    assert(bytes.skip(9 + len) =~= Seq::empty());
    assert(read_frames(Seq::<u8>::empty()) == Some(Seq::<RawFrame>::empty()));
    assert(seq![RawFrame { kind, flags, stream_id: id, payload }] + Seq::<RawFrame>::empty()
        =~= seq![RawFrame { kind, flags, stream_id: id, payload }]);
}

/// What stands behind frames does not change how they are read.
pub proof fn lemma_read_on(a: Seq<u8>, b: Seq<u8>)
    requires
        read_frames(a) is Some,
    ensures
        read_frames(a + b) == match read_frames(b) {
            Some(more) => Some(read_frames(a)->0 + more),
            None => None,
        },
    decreases a.len(),
{
    if a.len() == 0 {
        assert(a + b =~= b);
        if read_frames(b) is Some {
            assert(read_frames(a)->0 + read_frames(b)->0 =~= read_frames(b)->0);
        }
    } else {
        let end = 9 + (a[0] * 0x1_0000 + a[1] * 0x100 + a[2]);
        assert((a + b).subrange(5, 9) =~= a.subrange(5, 9));
        assert((a + b).skip(end) =~= a.skip(end) + b);
        assert((a + b).subrange(9, end) =~= a.subrange(9, end));
        lemma_read_on(a.skip(end), b);
        if read_frames(b) is Some {
            assert(read_frames(a + b)->0 =~= read_frames(a)->0 + read_frames(b)->0);
        }
    }
}

/// Nothing was written.
pub proof fn lemma_wrote_nothing(w: WriterView)
    ensures
        wrote(w, w, Seq::empty()),
        wrote(w, w.flush(), Seq::empty()),
{
    writer::lemma_wire_keeps_order(w, Seq::empty(), Seq::empty(), Seq::empty());
    assert(w.wire() + Seq::<u8>::empty() =~= w.wire());
    assert(read_frames(Seq::<u8>::empty()) == Some(Seq::<RawFrame>::empty()));
}

/// What was written in two goes was written in one.
pub proof fn lemma_wrote_on(
    a: WriterView,
    b: WriterView,
    c: WriterView,
    first: Seq<RawFrame>,
    then: Seq<RawFrame>,
)
    requires
        wrote(a, b, first),
        wrote(b, c, then),
    ensures
        wrote(a, c, first + then),
{
    let x = choose|x: Seq<u8>| b.wire() == a.wire() + x && #[trigger] read_frames(x) == Some(first);
    let y = choose|y: Seq<u8>| c.wire() == b.wire() + y && #[trigger] read_frames(y) == Some(then);
    lemma_read_on(x, y);
    assert(c.wire() =~= a.wire() + (x + y));
}

/// One frame was buffered.
pub(crate) proof fn lemma_wrote_frame(w: WriterView, kind: u8, flags: u8, id: u32, payload: Seq<u8>)
    requires
        id <= MAX_31_BIT,
        payload.len() <= LARGEST_MAX_FRAME_SIZE,
    ensures
        ({
            let bytes = frame::header_bytes(kind, flags, id, payload.len() as u32) + payload;
            wrote(w, w.frame(bytes), seq![RawFrame { kind, flags, stream_id: id, payload }])
        }),
{
    let bytes = frame::header_bytes(kind, flags, id, payload.len() as u32) + payload;
    writer::lemma_wire_keeps_order(w, bytes, Seq::empty(), Seq::empty());
    lemma_frame_reads_back(kind, flags, id, payload);
}

/// The control frames that a connection writes are read back.
pub(crate) proof fn lemma_wrote_control(w: WriterView, id: u32, n: u32, data: Seq<u8>)
    requires
        id <= MAX_31_BIT,
        data.len() == 8,
    ensures
        wrote(
            w,
            w.frame((WindowUpdateView { stream_id: id, size_increment: n }).bytes()),
            seq![window_update(id, n)],
        ),
        wrote(
            w,
            w.frame((PingView { ack: true, opaque_data: data }).bytes()),
            seq![pong(data)],
        ),
        wrote(w, w.frame(SettingsView::acknowledgement().bytes()), seq![settings_ack()]),
{
    lemma_numbers_read_back(n);
    lemma_wrote_frame(w, 8, 0, id, frame::be32(n));
    lemma_wrote_frame(w, 6, 1, 0, data);
    lemma_wrote_frame(w, 4, 1, 0, Seq::empty());
    assert(SettingsView::acknowledgement().payload() =~= Seq::empty());
}

/// A reset and a GOAWAY that a connection writes are read back.
pub(crate) proof fn lemma_wrote_reason(w: WriterView, id: u32, reason: Reason)
    requires
        id <= MAX_31_BIT,
    ensures
        wrote(
            w,
            w.frame((RstStreamView { stream_id: id, reason }).bytes()),
            seq![rst_stream(id, reason.spec_code())],
        ),
        wrote(
            w,
            w.frame(GoAwayView::new(id, reason).bytes()),
            seq![goaway(id, reason.spec_code())],
        ),
{
    let code = frame::be32(reason.spec_code());
    lemma_numbers_read_back(reason.spec_code());
    lemma_numbers_read_back(id);
    lemma_wrote_frame(w, 3, 0, id, code);
    let payload = frame::be32(id) + code;
    lemma_wrote_frame(w, 7, 0, 0, payload);
    let header = frame::header_bytes(7, 0, 0, 8);
    assert(header + frame::be32(id) + code + Seq::<u8>::empty() =~= header + payload);
}

/// The parameters of a SETTINGS frame are read back, in the order of their identifiers.
pub proof fn lemma_settings_read_back(w: WriterView, s: SettingsView)
    requires
        !s.ack,
    ensures
        wrote(
            w,
            w.frame(s.bytes()),
            seq![RawFrame { kind: 4, flags: 0, stream_id: 0, payload: s.payload() }],
        ),
        read_parameters(s.payload()) == stated(1, s.header_table_size) + stated(
            2,
            match s.enable_push {
                Some(true) => Some(1u32),
                Some(false) => Some(0u32),
                None => None,
            },
        ) + stated(3, s.max_concurrent_streams) + stated(4, s.initial_window_size) + stated(
            5,
            s.max_frame_size,
        ) + stated(6, s.max_header_list_size),
{
    let push = match s.enable_push {
        Some(b) => Some(
            if b {
                1u32
            } else {
                0u32
            },
        ),
        None => None,
    };
    let p6 = control::parameter(6, s.max_header_list_size);
    let p5 = control::parameter(5, s.max_frame_size) + p6;
    let p4 = control::parameter(4, s.initial_window_size) + p5;
    let p3 = control::parameter(3, s.max_concurrent_streams) + p4;
    let p2 = control::parameter(2, push) + p3;
    let p1 = control::parameter(1, s.header_table_size) + p2;
    lemma_parameter_reads_back(6, s.max_header_list_size, Seq::empty());
    assert(p6 + Seq::<u8>::empty() =~= p6);
    lemma_parameter_reads_back(5, s.max_frame_size, p6);
    lemma_parameter_reads_back(4, s.initial_window_size, p5);
    lemma_parameter_reads_back(3, s.max_concurrent_streams, p4);
    lemma_parameter_reads_back(2, push, p3);
    lemma_parameter_reads_back(1, s.header_table_size, p2);
    lemma_six_parts(
        control::parameter(1, s.header_table_size),
        control::parameter(2, push),
        control::parameter(3, s.max_concurrent_streams),
        control::parameter(4, s.initial_window_size),
        control::parameter(5, s.max_frame_size),
        p6,
    );
    let r6 = stated(6, s.max_header_list_size);
    assert(read_parameters(Seq::<u8>::empty()) =~= Seq::empty());
    assert(r6 + Seq::<(int, int)>::empty() =~= r6);
    lemma_six_parts(
        stated(1, s.header_table_size),
        stated(2, push),
        stated(3, s.max_concurrent_streams),
        stated(4, s.initial_window_size),
        stated(5, s.max_frame_size),
        r6,
    );
    assert(s.payload() == p1);
    lemma_wrote_frame(w, 4, 0, 0, p1);
}

proof fn lemma_six_parts<A>(a: Seq<A>, b: Seq<A>, c: Seq<A>, d: Seq<A>, e: Seq<A>, f: Seq<A>)
    ensures
        a + b + c + d + e + f == a + (b + (c + (d + (e + f)))),
{
    assert(a + b + c + d + e + f =~= a + b + c + d + (e + f));
    assert(a + b + c + d + (e + f) =~= a + b + c + (d + (e + f)));
    assert(a + b + c + (d + (e + f)) =~= a + b + (c + (d + (e + f))));
    assert(a + b + (c + (d + (e + f))) =~= a + (b + (c + (d + (e + f)))));
}

/// One parameter of SETTINGS, where it is stated.
pub open spec fn stated(id: int, value: Option<u32>) -> Seq<(int, int)> {
    match value {
        Some(v) => seq![(id, v as int)],
        None => Seq::empty(),
    }
}

proof fn lemma_parameter_reads_back(id: u8, value: Option<u32>, rest: Seq<u8>)
    ensures
        read_parameters(control::parameter(id, value) + rest) == stated(id as int, value)
            + read_parameters(rest),
        control::parameter(id, value).len() <= 6,
{
    let p = control::parameter(id, value);
    match value {
        Some(v) => {
            lemma_numbers_read_back(v);
            assert((p + rest).subrange(2, 6) =~= frame::be32(v));
            assert((p + rest).skip(6) =~= rest);
        },
        None => {
            assert(p + rest =~= rest);
            assert(stated(id as int, value) + read_parameters(rest) =~= read_parameters(rest));
        },
    }
}

/// DATA frames as they stand on the wire.
pub open spec fn raw_data(frames: Seq<DataView>) -> Seq<RawFrame> {
    frames.map_values(
        |d: DataView|
            RawFrame { kind: 0, flags: d.flags, stream_id: d.stream_id, payload: d.payload },
    )
}

/// DATA frames are read back.
pub(crate) proof fn lemma_wrote_data(w: WriterView, frames: Seq<DataView>)
    requires
        forall|i: int|
            0 <= i < frames.len() ==> (#[trigger] frames[i]).stream_id <= MAX_31_BIT
                && frames[i].payload.len() <= LARGEST_MAX_FRAME_SIZE,
    ensures
        wrote(w, w.data_frames(frames), raw_data(frames)),
    decreases frames.len(),
{
    if frames.len() == 0 {
        lemma_wrote_nothing(w);
        assert(raw_data(frames) =~= Seq::empty());
    } else {
        let d = frames[0];
        let rest = frames.drop_first();
        let header = frame::header_bytes(0, d.flags, d.stream_id, d.payload.len() as u32);
        let next = w.data_frame(header, d.payload);
        writer::lemma_wire_keeps_order(w, Seq::empty(), header, d.payload);
        lemma_frame_reads_back(0, d.flags, d.stream_id, d.payload);
        assert(next.wire() =~= w.wire() + (header + d.payload));
        assert forall|i: int| 0 <= i < rest.len() implies (#[trigger] rest[i]).stream_id
            <= MAX_31_BIT && rest[i].payload.len() <= LARGEST_MAX_FRAME_SIZE by {
            assert(rest[i] == frames[i + 1]);
        }
        lemma_wrote_data(next, rest);
        let first = seq![raw_data(frames)[0]];
        assert(wrote(w, next, first));
        lemma_wrote_on(w, next, w.data_frames(frames), first, raw_data(rest));
        assert(first + raw_data(rest) =~= raw_data(frames));
    }
}

/// The frames of a header block as they stand on the wire.
pub open spec fn raw_headers(frames: Seq<FrameView>) -> Seq<RawFrame> {
    frames.map_values(|f: FrameView| raw_header(f))
}

/// A frame of a header block as it stands on the wire.
pub open spec fn raw_header(f: FrameView) -> RawFrame {
    match f {
        FrameView::Headers(h) => RawFrame {
            kind: 1,
            flags: h.flags(),
            stream_id: h.stream_id,
            payload: h.header_block,
        },
        FrameView::Continuation(c) => RawFrame {
            kind: 9,
            flags: if c.end_headers {
                4
            } else {
                0
            },
            stream_id: c.stream_id,
            payload: c.header_block,
        },
        _ => arbitrary(),
    }
}

/// Whether a frame carries a part of a header block, and no priority, and fits its length.
pub open spec fn is_plain_header(f: FrameView) -> bool {
    match f {
        FrameView::Headers(h) => !h.has_priority && h.stream_id <= MAX_31_BIT
            && h.header_block.len() <= LARGEST_MAX_FRAME_SIZE,
        FrameView::Continuation(c) => c.stream_id <= MAX_31_BIT && c.header_block.len()
            <= LARGEST_MAX_FRAME_SIZE,
        _ => false,
    }
}

/// The frames of a header block are read back.
pub(crate) proof fn lemma_wrote_headers(w: WriterView, frames: Seq<FrameView>)
    requires
        forall|i: int| 0 <= i < frames.len() ==> is_plain_header(#[trigger] frames[i]),
    ensures
        wrote(w, w.frames(frames), raw_headers(frames)),
    decreases frames.len(),
{
    if frames.len() == 0 {
        lemma_wrote_nothing(w);
        assert(raw_headers(frames) =~= Seq::empty());
    } else {
        let f = frames[0];
        let raw = raw_header(f);
        let rest = frames.drop_first();
        assert(is_plain_header(f));
        lemma_wrote_frame(w, raw.kind, raw.flags, raw.stream_id, raw.payload);
        let header = frame::header_bytes(
            raw.kind,
            raw.flags,
            raw.stream_id,
            raw.payload.len() as u32,
        );
        assert(header + Seq::<u8>::empty() + raw.payload =~= header + raw.payload);
        assert(f.bytes() == header + raw.payload);
        let next = w.frame(f.bytes());
        assert forall|i: int| 0 <= i < rest.len() implies is_plain_header(#[trigger] rest[i]) by {
            assert(rest[i] == frames[i + 1]);
        }
        lemma_wrote_headers(next, rest);
        assert(wrote(w, next, seq![raw]));
        lemma_wrote_on(w, next, w.frames(frames), seq![raw], raw_headers(rest));
        assert(seq![raw] + raw_headers(rest) =~= raw_headers(frames));
    }
}

/// What is carried for a stream by two goes is carried by the first and then by the second.
pub(crate) proof fn lemma_data_on_adds(a: Seq<RawFrame>, b: Seq<RawFrame>, id: u32)
    ensures
        data_on(a + b, id) == data_on(a, id) + data_on(b, id),
        increments_on(a + b, id) == increments_on(a, id) + increments_on(b, id),
    decreases b.len(),
{
    if b.len() == 0 {
        assert(a + b =~= a);
        assert(data_on(a, id) + data_on(b, id) =~= data_on(a, id));
        assert(increments_on(a, id) + increments_on(b, id) =~= increments_on(a, id));
    } else {
        lemma_data_on_adds(a, b.drop_last(), id);
        assert((a + b).drop_last() =~= a + b.drop_last());
        assert(data_on(a + b, id) =~= data_on(a, id) + data_on(b, id));
        assert(increments_on(a + b, id) =~= increments_on(a, id) + increments_on(b, id));
    }
}

/// PING and PRIORITY frames are read back, and so is a HEADERS frame with a priority.
pub proof fn lemma_other_frames_read_back(
    w: WriterView,
    data: Seq<u8>,
    p: PriorityView,
    h: HeadersView,
)
    requires
        data.len() == 8,
        p.stream_id <= MAX_31_BIT,
        p.dependency <= MAX_31_BIT,
        h.stream_id <= MAX_31_BIT,
        h.dependency <= MAX_31_BIT,
        h.has_priority,
        h.header_block.len() + 5 <= LARGEST_MAX_FRAME_SIZE,
    ensures
        wrote(
            w,
            w.frame((PingView { ack: false, opaque_data: data }).bytes()),
            seq![RawFrame { kind: 6, flags: 0, stream_id: 0, payload: data }],
        ),
        wrote(
            w,
            w.frame(p.bytes()),
            seq![
                RawFrame {
                    kind: 2,
                    flags: 0,
                    stream_id: p.stream_id,
                    payload: priority(p.exclusive, p.dependency, p.weight),
                },
            ],
        ),
        wrote(
            w,
            w.frame(h.bytes()),
            seq![
                RawFrame {
                    kind: 1,
                    flags: (0x20 + (if h.end_headers {
                        4int
                    } else {
                        0
                    }) + (if h.end_stream {
                        1int
                    } else {
                        0
                    })) as u8,
                    stream_id: h.stream_id,
                    payload: priority(h.exclusive, h.dependency, h.weight) + h.header_block,
                },
            ],
        ),
{
    lemma_wrote_frame(w, 6, 0, 0, data);
    let word = priority(p.exclusive, p.dependency, p.weight);
    lemma_numbers_read_back(
        if p.exclusive {
            (p.dependency + 0x8000_0000) as u32
        } else {
            p.dependency
        },
    );
    lemma_numbers_read_back(
        if h.exclusive {
            (h.dependency + 0x8000_0000) as u32
        } else {
            h.dependency
        },
    );
    lemma_wrote_frame(w, 2, 0, p.stream_id, word);
    let head = frame::header_bytes(2, 0, p.stream_id, 5);
    assert(p.bytes() =~= head + word);
    let payload = priority(h.exclusive, h.dependency, h.weight) + h.header_block;
    lemma_wrote_frame(w, 1, h.flags(), h.stream_id, payload);
    let head = frame::header_bytes(1, h.flags(), h.stream_id, payload.len() as u32);
    assert(h.bytes() =~= head + payload);
}

/// A GOAWAY frame with debug data is read back: the last stream, the reason, and the data.
pub proof fn lemma_goaway_reads_back(w: WriterView, f: GoAwayView)
    requires
        f.last_stream_id <= MAX_31_BIT,
        f.debug_data.len() + 8 <= LARGEST_MAX_FRAME_SIZE,
    ensures
        wrote(
            w,
            w.frame(f.bytes()),
            seq![
                RawFrame {
                    kind: 7,
                    flags: 0,
                    stream_id: 0,
                    payload: frame::be32(f.last_stream_id) + frame::be32(f.error_code.spec_code())
                        + f.debug_data,
                },
            ],
        ),
{
    let last = frame::be32(f.last_stream_id);
    let code = frame::be32(f.error_code.spec_code());
    lemma_numbers_read_back(f.last_stream_id);
    lemma_numbers_read_back(f.error_code.spec_code());
    let payload = last + code + f.debug_data;
    lemma_wrote_frame(w, 7, 0, 0, payload);
    let head = frame::header_bytes(7, 0, 0, payload.len() as u32);
    assert(f.bytes() =~= head + payload);
}

/// A priority on the wire: the stream that is depended on, with the top bit for exclusiveness,
/// and the weight.
pub open spec fn priority(exclusive: bool, dependency: u32, weight: u8) -> Seq<u8> {
    frame::be32(
        (dependency + (if exclusive {
            0x8000_0000int
        } else {
            0
        })) as u32,
    ) + seq![weight]
}

} // verus!
