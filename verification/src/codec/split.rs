//! Splitting message data and header blocks into frames that the peer accepts.

use crate::buf;
use crate::codec::writer;
use crate::codec::writer::{FrameWriter, WriterView};
use crate::frame;
use crate::frame::data::{DataView, FLAG_END_STREAM};
use crate::frame::headers::{ContinuationView, HeadersView};
use crate::frame::{
    Continuation, Frame, FrameHeader, FrameView, Headers, StreamId, FRAME_TYPE_DATA,
};
use bytes::Bytes;
use vstd::prelude::*;

verus! {

/// The DATA frames that carry `payload` in pieces of at most `max` bytes. Only the
/// last one may end the stream. An empty payload takes one empty frame.
pub open spec fn data_frames(
    stream_id: u32,
    payload: Seq<u8>,
    end_stream: bool,
    max: nat,
) -> Seq<DataView>
    decreases payload.len(),
{
    if max == 0 || payload.len() <= max {
        seq![
            DataView {
                stream_id,
                payload,
                flags: if end_stream {
                    FLAG_END_STREAM
                } else {
                    0
                },
                padding: 0,
            },
        ]
    } else {
        seq![DataView { stream_id, payload: payload.take(max as int), flags: 0, padding: 0 }]
            + data_frames(stream_id, payload.skip(max as int), end_stream, max)
    }
}

/// The pieces of the payloads, in order.
pub open spec fn payloads(frames: Seq<DataView>) -> Seq<Seq<u8>> {
    frames.map_values(|d: DataView| d.payload)
}

/// The CONTINUATION frames that carry `block` in pieces of at most `max` bytes. Only
/// the last one ends the headers.
pub open spec fn continuation_frames(stream_id: u32, block: Seq<u8>, max: nat) -> Seq<
    ContinuationView,
>
    decreases block.len(),
{
    if max == 0 || block.len() <= max {
        seq![ContinuationView { stream_id, header_block: block, end_headers: true }]
    } else {
        seq![
            ContinuationView {
                stream_id,
                header_block: block.take(max as int),
                end_headers: false,
            },
        ] + continuation_frames(stream_id, block.skip(max as int), max)
    }
}

/// The HEADERS frame in front of CONTINUATION frames: the first piece of the block,
/// with what the whole frame says of the stream's end and of its priority.
pub open spec fn first_headers(h: HeadersView, max: nat) -> HeadersView {
    let first = HeadersView {
        end_stream: h.end_stream,
        end_headers: false,
        ..HeadersView::new(h.stream_id, h.header_block.take(max as int))
    };
    if h.has_priority {
        HeadersView {
            has_priority: true,
            exclusive: h.exclusive,
            dependency: h.dependency,
            weight: h.weight,
            ..first
        }
    } else {
        first
    }
}

/// The frames that carry a header block in pieces of at most `max` bytes.
pub open spec fn header_frames(h: HeadersView, max: nat) -> Seq<FrameView> {
    if h.header_block.len() <= max {
        seq![FrameView::Headers(h)]
    } else {
        seq![FrameView::Headers(first_headers(h, max))] + continuation_frames(
            h.stream_id,
            h.header_block.skip(max as int),
            max,
        ).map_values(|c: ContinuationView| FrameView::Continuation(c))
    }
}

/// The part of a header block that a frame carries.
pub open spec fn block_of(f: FrameView) -> Seq<u8> {
    match f {
        FrameView::Headers(h) => h.header_block,
        FrameView::Continuation(c) => c.header_block,
        _ => Seq::empty(),
    }
}

/// Whether a frame is the last of its header block.
pub open spec fn ends_headers(f: FrameView) -> bool {
    match f {
        FrameView::Headers(h) => h.end_headers,
        FrameView::Continuation(c) => c.end_headers,
        _ => false,
    }
}

/// The parts of the header block that the frames carry, in order.
pub open spec fn blocks(frames: Seq<FrameView>) -> Seq<Seq<u8>> {
    frames.map_values(|f: FrameView| block_of(f))
}

impl WriterView {
    /// DATA frames are written one after the other.
    pub open spec fn data_frames(self, frames: Seq<DataView>) -> WriterView
        decreases frames.len(),
    {
        if frames.len() == 0 {
            self
        } else {
            let d = frames[0];
            self.data_frame(
                frame::header_bytes(
                    FRAME_TYPE_DATA,
                    d.flags,
                    d.stream_id,
                    frame::low32(d.payload.len() as int),
                ),
                d.payload,
            ).data_frames(frames.drop_first())
        }
    }

    /// Frames are buffered one after the other.
    pub open spec fn frames(self, frames: Seq<FrameView>) -> WriterView
        decreases frames.len(),
    {
        if frames.len() == 0 {
            self
        } else {
            self.frame(frames[0].bytes()).frames(frames.drop_first())
        }
    }
}

/// Write DATA frames, splitting the payload into frames of at most `max_frame_size`
/// bytes. Only the last frame carries END_STREAM (if requested).
pub fn write_data_frames<W>(
    writer: &mut FrameWriter<W>,
    stream_id: StreamId,
    payload: &Bytes,
    end_stream: bool,
    max_frame_size: usize,
)
    requires
        max_frame_size > 0,
    ensures
        final(writer)@ == old(writer)@.data_frames(
            data_frames(stream_id@, buf::content(*payload), end_stream, max_frame_size as nat),
        ),
        final(writer).spec_transport() == old(writer).spec_transport(),
{
    let len: usize = payload.len();
    let ghost whole = buf::content(*payload);
    let ghost id = stream_id@;
    let ghost max = max_frame_size as nat;
    let ghost goal = writer@.data_frames(data_frames(id, whole, end_stream, max));
    let mut offset: usize = 0;
    assert(whole.skip(0) =~= whole);
    while len - offset > max_frame_size
        invariant
            max_frame_size > 0,
            offset <= len,
            len == whole.len(),
            whole == buf::content(*payload),
            id == stream_id@,
            max == max_frame_size as nat,
            goal == writer@.data_frames(
                data_frames(id, whole.skip(offset as int), end_stream, max),
            ),
            writer.spec_transport() == old(writer).spec_transport(),
        decreases len - offset,
    {
        let end: usize = offset + max_frame_size;
        let chunk = buf::slice(payload, offset, end);
        let header = FrameHeader::new(FRAME_TYPE_DATA, 0, stream_id, frame::truncate32(chunk.len()));
        proof {
            let rest = whole.skip(offset as int);
            let frames = data_frames(id, rest, end_stream, max);
            assert(rest.take(max as int) =~= whole.subrange(offset as int, end as int));
            assert(rest.skip(max as int) =~= whole.skip(end as int));
            assert(frames.drop_first() =~= data_frames(
                id,
                rest.skip(max as int),
                end_stream,
                max,
            ));
        }
        writer.write_data_frame(header.encode(), &chunk);
        offset = end;
    }
    let chunk = buf::slice(payload, offset, len);
    let flags: u8 = if end_stream {
        FLAG_END_STREAM
    } else {
        0
    };
    let header = FrameHeader::new(
        FRAME_TYPE_DATA,
        flags,
        stream_id,
        frame::truncate32(chunk.len()),
    );
    proof {
        let rest = whole.skip(offset as int);
        assert(rest =~= whole.subrange(offset as int, len as int));
        let frames = data_frames(id, rest, end_stream, max);
        assert(frames.len() == 1);
        reveal_with_fuel(WriterView::data_frames, 2);
        assert(frames.drop_first().len() == 0);
    }
    writer.write_data_frame(header.encode(), &chunk);
}

/// Write a HEADERS frame, splitting into CONTINUATION frames if the header
/// block exceeds `max_frame_size`.
pub fn write_headers_with_continuation<W>(
    writer: &mut FrameWriter<W>,
    headers: Headers,
    max_frame_size: usize,
)
    requires
        max_frame_size > 0,
    ensures
        final(writer)@ == old(writer)@.frames(header_frames(headers@, max_frame_size as nat)),
        final(writer).spec_transport() == old(writer).spec_transport(),
{
    let header_block = headers.header_block().clone();
    let len: usize = header_block.len();
    let ghost h = headers@;
    let ghost max = max_frame_size as nat;
    if len <= max_frame_size {
        // Fits in a single HEADERS frame: written as it is
        proof {
            reveal_with_fuel(WriterView::frames, 2);
            assert(header_frames(h, max).drop_first().len() == 0);
        }
        writer.write_frame(&Frame::Headers(headers));
        return;
    }
    let stream_id = headers.stream_id();
    let mut first_frame = Headers::new(stream_id, buf::slice(&header_block, 0, max_frame_size));
    if headers.is_end_stream() {
        first_frame.set_end_stream();
    }
    if headers.has_priority() {
        first_frame.set_priority(headers.exclusive(), headers.dependency(), headers.weight());
    }
    first_frame.clear_end_headers();
    let ghost whole = h.header_block;
    let ghost wrap = |c: ContinuationView| FrameView::Continuation(c);
    proof {
        assert(whole.take(max as int) =~= whole.subrange(0, max as int));
        assert(header_frames(h, max).drop_first() =~= continuation_frames(
            h.stream_id,
            whole.skip(max as int),
            max,
        ).map_values(wrap));
    }
    writer.write_frame(&Frame::Headers(first_frame));

    let ghost goal = old(writer)@.frames(header_frames(h, max));
    let mut offset: usize = max_frame_size;
    while len - offset > max_frame_size
        invariant
            max_frame_size > 0,
            offset <= len,
            len == whole.len(),
            whole == buf::content(header_block),
            h.stream_id == stream_id@,
            max == max_frame_size as nat,
            wrap == (|c: ContinuationView| FrameView::Continuation(c)),
            goal == writer@.frames(
                continuation_frames(h.stream_id, whole.skip(offset as int), max).map_values(wrap),
            ),
            writer.spec_transport() == old(writer).spec_transport(),
        decreases len - offset,
    {
        let end: usize = offset + max_frame_size;
        let chunk = buf::slice(&header_block, offset, end);
        let cont = Continuation::new(stream_id, chunk);
        proof {
            let rest = whole.skip(offset as int);
            let frames = continuation_frames(h.stream_id, rest, max);
            assert(rest.take(max as int) =~= whole.subrange(offset as int, end as int));
            assert(rest.skip(max as int) =~= whole.skip(end as int));
            assert(frames.map_values(wrap)[0] == wrap(frames[0]));
            assert(frames.map_values(wrap).drop_first() =~= continuation_frames(
                h.stream_id,
                rest.skip(max as int),
                max,
            ).map_values(wrap));
        }
        writer.write_frame(&Frame::Continuation(cont));
        offset = end;
    }
    let chunk = buf::slice(&header_block, offset, len);
    let mut cont = Continuation::new(stream_id, chunk);
    cont.set_end_headers();
    proof {
        let rest = whole.skip(offset as int);
        assert(rest =~= whole.subrange(offset as int, len as int));
        let frames = continuation_frames(h.stream_id, rest, max).map_values(wrap);
        assert(frames.len() == 1);
        reveal_with_fuel(WriterView::frames, 2);
        assert(frames.drop_first().len() == 0);
    }
    writer.write_frame(&Frame::Continuation(cont));
}

/// Splitting loses no data and respects the peer's limit: the pieces make up the
/// payload, none is longer than `max`, all but the last are exactly that long, and
/// only the last one ends the stream, if it is to be ended.
pub proof fn lemma_data_split(stream_id: u32, payload: Seq<u8>, end_stream: bool, max: nat)
    requires
        max > 0,
    ensures
        ({
            let frames = data_frames(stream_id, payload, end_stream, max);
            &&& frames.len() > 0
            &&& payloads(frames).flatten() == payload
            &&& forall|i: int|
                0 <= i < frames.len() ==> {
                    &&& (#[trigger] frames[i]).stream_id == stream_id
                    &&& frames[i].payload.len() <= max
                    &&& i < frames.len() - 1 ==> frames[i].payload.len() == max
                        && !frames[i].end_stream()
                    &&& i == frames.len() - 1 ==> frames[i].end_stream() == end_stream
                }
        }),
    decreases payload.len(),
{
    let frames = data_frames(stream_id, payload, end_stream, max);
    assert(0u8 & 0x1u8 == 0u8 && 0x1u8 & 0x1u8 == 0x1u8) by (bit_vector);
    if payload.len() <= max {
        assert(payloads(frames) =~= seq![payload]);
        seq![payload].lemma_flatten_one_element();
    } else {
        let tail = data_frames(stream_id, payload.skip(max as int), end_stream, max);
        lemma_data_split(stream_id, payload.skip(max as int), end_stream, max);
        assert(payloads(frames).drop_first() =~= payloads(tail));
        assert(payloads(frames).first() == payload.take(max as int));
        assert(payloads(frames).flatten() =~= payload);
        assert forall|i: int| 0 <= i < frames.len() implies {
            &&& (#[trigger] frames[i]).stream_id == stream_id
            &&& frames[i].payload.len() <= max
            &&& i < frames.len() - 1 ==> frames[i].payload.len() == max && !frames[i].end_stream()
            &&& i == frames.len() - 1 ==> frames[i].end_stream() == end_stream
        } by {
            if i > 0 {
                assert(frames[i] == tail[i - 1]);
            }
        }
    }
}

proof fn lemma_continuation_split(stream_id: u32, block: Seq<u8>, max: nat)
    requires
        max > 0,
    ensures
        ({
            let frames = continuation_frames(stream_id, block, max);
            &&& frames.len() > 0
            &&& frames.map_values(|c: ContinuationView| c.header_block).flatten() == block
            &&& forall|i: int|
                0 <= i < frames.len() ==> {
                    &&& (#[trigger] frames[i]).stream_id == stream_id
                    &&& frames[i].header_block.len() <= max
                    &&& frames[i].end_headers == (i == frames.len() - 1)
                }
        }),
    decreases block.len(),
{
    let frames = continuation_frames(stream_id, block, max);
    let part = |c: ContinuationView| c.header_block;
    if block.len() <= max {
        assert(frames.map_values(part) =~= seq![block]);
        seq![block].lemma_flatten_one_element();
    } else {
        let tail = continuation_frames(stream_id, block.skip(max as int), max);
        lemma_continuation_split(stream_id, block.skip(max as int), max);
        assert(frames.map_values(part).drop_first() =~= tail.map_values(part));
        assert(frames.map_values(part).first() == block.take(max as int));
        assert(frames.map_values(part).flatten() =~= block);
        assert forall|i: int| 0 <= i < frames.len() implies {
            &&& (#[trigger] frames[i]).stream_id == stream_id
            &&& frames[i].header_block.len() <= max
            &&& frames[i].end_headers == (i == frames.len() - 1)
        } by {
            if i > 0 {
                assert(frames[i] == tail[i - 1]);
            }
        }
    }
}

/// Splitting a complete header block loses nothing and respects the peer's limit:
/// the pieces make up the block, none is longer than `max`, the first frame is the
/// only HEADERS frame and says of the stream's end and priority what the whole frame
/// said, and END_HEADERS is set on the last frame and on no other.
pub proof fn lemma_header_split(h: HeadersView, max: nat)
    requires
        max > 0,
        h.end_headers,
    ensures
        ({
            let frames = header_frames(h, max);
            &&& frames.len() > 0
            &&& blocks(frames).flatten() == h.header_block
            &&& frames[0] matches FrameView::Headers(f) && f.stream_id == h.stream_id
                && f.end_stream == h.end_stream && f.has_priority == h.has_priority
                && f.priority_bytes() == h.priority_bytes()
            &&& forall|i: int|
                0 <= i < frames.len() ==> {
                    &&& block_of(#[trigger] frames[i]).len() <= max
                    &&& ends_headers(frames[i]) == (i == frames.len() - 1)
                    &&& i > 0 ==> (frames[i] matches FrameView::Continuation(c) && c.stream_id
                        == h.stream_id)
                }
        }),
{
    let frames = header_frames(h, max);
    let block = h.header_block;
    if block.len() <= max {
        assert(blocks(frames) =~= seq![block]);
        seq![block].lemma_flatten_one_element();
    } else {
        let tail = continuation_frames(h.stream_id, block.skip(max as int), max);
        lemma_continuation_split(h.stream_id, block.skip(max as int), max);
        let part = |c: ContinuationView| c.header_block;
        assert(blocks(frames).drop_first() =~= tail.map_values(part));
        assert(blocks(frames).first() == block.take(max as int));
        assert(blocks(frames).flatten() =~= block);
        assert forall|i: int| 0 <= i < frames.len() implies {
            &&& block_of(#[trigger] frames[i]).len() <= max
            &&& ends_headers(frames[i]) == (i == frames.len() - 1)
            &&& i > 0 ==> (frames[i] matches FrameView::Continuation(c) && c.stream_id
                == h.stream_id)
        } by {
            if i > 0 {
                assert(frames[i] == FrameView::Continuation(tail[i - 1]));
            }
        }
    }
}

/// DATA frames go over the wire whole and in order.
pub proof fn lemma_data_frames_wire(w: WriterView, frames: Seq<DataView>)
    ensures
        w.data_frames(frames).wire() == w.wire() + frames.map_values(
            |d: DataView| d.bytes(),
        ).flatten(),
    decreases frames.len(),
{
    let bytes = |d: DataView| d.bytes();
    if frames.len() == 0 {
        assert(frames.map_values(bytes).flatten() =~= Seq::empty());
        assert(w.wire() + Seq::<u8>::empty() =~= w.wire());
    } else {
        let d = frames[0];
        let header = frame::header_bytes(
            FRAME_TYPE_DATA,
            d.flags,
            d.stream_id,
            frame::low32(d.payload.len() as int),
        );
        let next = w.data_frame(header, d.payload);
        writer::lemma_wire_keeps_order(w, d.bytes(), header, d.payload);
        lemma_data_frames_wire(next, frames.drop_first());
        assert(frames.map_values(bytes).drop_first() =~= frames.drop_first().map_values(bytes));
        assert(frames.map_values(bytes).first() == d.bytes());
        assert(w.data_frames(frames).wire() =~= w.wire() + frames.map_values(bytes).flatten());
    }
}

/// Buffered frames go over the wire whole and in order.
pub proof fn lemma_frames_wire(w: WriterView, frames: Seq<FrameView>)
    ensures
        w.frames(frames).wire() == w.wire() + frames.map_values(
            |f: FrameView| f.bytes(),
        ).flatten(),
    decreases frames.len(),
{
    let bytes = |f: FrameView| f.bytes();
    if frames.len() == 0 {
        assert(frames.map_values(bytes).flatten() =~= Seq::empty());
        assert(w.wire() + Seq::<u8>::empty() =~= w.wire());
    } else {
        let f = frames[0];
        writer::lemma_wire_keeps_order(w, f.bytes(), Seq::empty(), Seq::empty());
        lemma_frames_wire(w.frame(f.bytes()), frames.drop_first());
        assert(frames.map_values(bytes).drop_first() =~= frames.drop_first().map_values(bytes));
        assert(frames.map_values(bytes).first() == f.bytes());
        assert(w.frames(frames).wire() =~= w.wire() + frames.map_values(bytes).flatten());
    }
}

} // verus!
