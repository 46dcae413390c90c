//! The queue of bytes that go over the wire.

use crate::buf;
use crate::frame::Frame;
use bytes::Bytes;
use vstd::prelude::*;

verus! {

/// Threshold at which the write buffer is automatically flushed.
pub const WRITE_BUFFER_FLUSH_THRESHOLD: usize = 16_384;

/// Turns HTTP/2 frames into chunks of bytes for the transport, with internal
/// buffering.
///
/// Small control frames (SETTINGS, PING, WINDOW_UPDATE, RST_STREAM, PRIORITY)
/// are serialized into an internal buffer and flushed together. DATA frames
/// flush the buffer first, then add header and payload as chunks of their own to
/// avoid copying large payloads (see `write_data_frame`).
///
/// Whoever owns the connection takes the chunks with [`take_ready`](Self::take_ready)
/// and writes them to the transport, which is reached by
/// [`transport`](Self::transport).
pub struct FrameWriter<IO> {
    io: IO,
    buf: Vec<u8>,
    ready: Vec<Bytes>,
}

/// What a [`FrameWriter`] holds.
#[verifier::ext_equal]
pub struct WriterView {
    /// Chunks to be written, the first one first.
    pub ready: Seq<Seq<u8>>,
    /// Bytes that wait for a flush.
    pub buf: Seq<u8>,
}

impl<IO> View for FrameWriter<IO> {
    type V = WriterView;

    closed spec fn view(&self) -> WriterView {
        WriterView { ready: buf::contents(self.ready@), buf: self.buf@ }
    }
}

impl WriterView {
    /// A writer that was given nothing yet.
    pub open spec fn empty() -> WriterView {
        WriterView { ready: Seq::empty(), buf: Seq::empty() }
    }

    /// Everything that is still to go over the wire, in order.
    pub open spec fn wire(self) -> Seq<u8> {
        self.ready.flatten() + self.buf
    }

    /// The buffered bytes become a chunk.
    pub open spec fn flush(self) -> WriterView {
        if self.buf.len() == 0 {
            self
        } else {
            WriterView { ready: self.ready.push(self.buf), buf: Seq::empty() }
        }
    }

    /// A frame is buffered; the buffer is flushed where it reaches the threshold.
    pub open spec fn frame(self, bytes: Seq<u8>) -> WriterView {
        let w = WriterView { buf: self.buf + bytes, ..self };
        if w.buf.len() >= WRITE_BUFFER_FLUSH_THRESHOLD {
            w.flush()
        } else {
            w
        }
    }

    /// The buffer is flushed and a chunk follows it.
    pub open spec fn chunk(self, bytes: Seq<u8>) -> WriterView {
        let w = self.flush();
        WriterView { ready: w.ready.push(bytes), ..w }
    }

    /// A DATA frame follows the buffer, its payload as a chunk of its own.
    pub open spec fn data_frame(self, header: Seq<u8>, payload: Seq<u8>) -> WriterView {
        let w = self.chunk(header);
        if payload.len() > 0 {
            w.chunk(payload)
        } else {
            w
        }
    }
}

impl<IO> FrameWriter<IO> {
    /// Create a new instance.
    pub fn new(io: IO) -> (w: FrameWriter<IO>)
        ensures
            w@ == WriterView::empty(),
            w.spec_transport() == io,
    {
        let w = FrameWriter {
            io,
            buf: Vec::with_capacity(WRITE_BUFFER_FLUSH_THRESHOLD),
            ready: Vec::new(),
        };
        assert(w@ =~= WriterView::empty());
        w
    }

    /// The transport that the chunks are for.
    pub closed spec fn spec_transport(self) -> IO {
        self.io
    }

    /// The transport that the chunks are for.
    pub fn transport(&mut self) -> (io: &mut IO)
        ensures
            *io == old(self).spec_transport(),
            final(self).spec_transport() == *final(io),
            final(self)@ == old(self)@,
    {
        &mut self.io
    }

    /// Buffer a frame for writing. Flushes automatically if the buffer
    /// exceeds the threshold.
    pub fn write_frame(&mut self, frame: &Frame)
        ensures
            final(self)@ == old(self)@.frame(frame@.bytes()),
            final(self).spec_transport() == old(self).spec_transport(),
    {
        frame.encode(&mut self.buf);
        if self.buf.len() >= WRITE_BUFFER_FLUSH_THRESHOLD {
            self.flush_buf();
        }
    }

    /// Write a DATA frame efficiently: flush the buffer first, then add
    /// the 9-byte frame header and the payload as chunks, avoiding a large copy
    /// into the write buffer.
    pub fn write_data_frame(&mut self, header_bytes: [u8; 9], payload: &Bytes)
        ensures
            final(self)@ == old(self)@.data_frame(header_bytes@, buf::content(*payload)),
            final(self).spec_transport() == old(self).spec_transport(),
    {
        self.push_chunk(Bytes::copy_from_slice(header_bytes.as_slice()));
        if !payload.is_empty() {
            self.push_chunk(payload.clone());
        }
    }

    /// Write raw bytes (used for connection preface).
    pub fn write_all_bytes(&mut self, data: Vec<u8>)
        ensures
            final(self)@ == old(self)@.chunk(data@),
            final(self).spec_transport() == old(self).spec_transport(),
    {
        self.push_chunk(buf::from_vec(data));
    }

    fn push_chunk(&mut self, chunk: Bytes)
        ensures
            final(self)@ == old(self)@.chunk(buf::content(chunk)),
            final(self).spec_transport() == old(self).spec_transport(),
    {
        // Flush buffer first so ordering is preserved
        self.flush_buf();
        let ghost before = self.ready@;
        self.ready.push(chunk);
        assert(buf::contents(self.ready@) =~= buf::contents(before).push(buf::content(chunk)));
    }

    /// Flush the internal write buffer: its bytes become a chunk for the transport.
    pub fn flush_buf(&mut self)
        ensures
            final(self)@ == old(self)@.flush(),
            final(self).spec_transport() == old(self).spec_transport(),
    {
        if self.buf.len() > 0 {
            let mut full: Vec<u8> = Vec::with_capacity(WRITE_BUFFER_FLUSH_THRESHOLD);
            core::mem::swap(&mut full, &mut self.buf);
            let ghost before = self.ready@;
            let chunk = buf::from_vec(full);
            self.ready.push(chunk);
            assert(buf::contents(self.ready@) =~= buf::contents(before).push(buf::content(chunk)));
            assert(self@ =~= old(self)@.flush());
        }
    }

    /// The chunks that are ready for the transport, the first one first. They are
    /// no longer held here.
    pub fn take_ready(&mut self) -> (chunks: Vec<Bytes>)
        ensures
            buf::contents(chunks@) == old(self)@.ready,
            final(self)@ == (WriterView { ready: Seq::empty(), ..old(self)@ }),
            final(self).spec_transport() == old(self).spec_transport(),
    {
        let mut chunks: Vec<Bytes> = Vec::new();
        core::mem::swap(&mut chunks, &mut self.ready);
        assert(buf::contents(self.ready@) =~= Seq::empty());
        chunks
    }
}

/// Bytes go over the wire in the order in which they were written, and none is
/// lost or repeated, whether or not the buffer is flushed.
pub proof fn lemma_wire_keeps_order(w: WriterView, bytes: Seq<u8>, header: Seq<u8>, payload: Seq<u8>)
    ensures
        w.flush().wire() == w.wire(),
        w.frame(bytes).wire() == w.wire() + bytes,
        w.chunk(bytes).wire() == w.wire() + bytes,
        w.data_frame(header, payload).wire() == w.wire() + header + payload,
{
    lemma_flush_wire(w);
    lemma_flush_wire(WriterView { buf: w.buf + bytes, ..w });
    assert((WriterView { buf: w.buf + bytes, ..w }).wire() =~= w.wire() + bytes);
    lemma_chunk_wire(w, bytes);
    lemma_chunk_wire(w, header);
    lemma_chunk_wire(w.chunk(header), payload);
    if payload.len() == 0 {
        assert(w.wire() + header + payload =~= w.wire() + header);
    }
}

proof fn lemma_flush_wire(w: WriterView)
    ensures
        w.flush().wire() == w.wire(),
{
    if w.buf.len() > 0 {
        lemma_flatten_last(w.ready, w.buf);
        assert(w.flush().wire() =~= w.wire());
    }
}

proof fn lemma_chunk_wire(w: WriterView, bytes: Seq<u8>)
    ensures
        w.chunk(bytes).wire() == w.wire() + bytes,
{
    lemma_flush_wire(w);
    lemma_flatten_last(w.flush().ready, bytes);
    assert(w.flush().buf =~= Seq::empty());
    assert(w.chunk(bytes).wire() =~= w.wire() + bytes);
}

/// Flattening a sequence with one more element appends that element.
pub(crate) proof fn lemma_flatten_last(s: Seq<Seq<u8>>, last: Seq<u8>)
    ensures
        s.push(last).flatten() == s.flatten() + last,
    decreases s.len(),
{
    if s.len() == 0 {
        assert(s.push(last).drop_first() =~= Seq::<Seq<u8>>::empty());
        assert(s.push(last).flatten() =~= s.flatten() + last) by {
            reveal_with_fuel(Seq::flatten, 2);
        }
    } else {
        lemma_flatten_last(s.drop_first(), last);
        assert(s.push(last).drop_first() =~= s.drop_first().push(last));
        assert(s.push(last).flatten() =~= s.flatten() + last);
    }
}

/// After a frame was written, less than the threshold waits in the buffer.
pub proof fn lemma_buffer_stays_below_threshold(w: WriterView, bytes: Seq<u8>)
    ensures
        w.frame(bytes).buf.len() < WRITE_BUFFER_FLUSH_THRESHOLD,
{
}

} // verus!
