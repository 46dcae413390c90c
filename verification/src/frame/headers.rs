//! HEADERS frames, and the CONTINUATION frames that carry the rest of a long
//! header block.

use super::{FrameHeader, StreamId, FRAME_TYPE_CONTINUATION, FRAME_TYPE_HEADERS};
use crate::buf;
use crate::frame;
use bytes::Bytes;
use vstd::prelude::*;

verus! {

/// HEADERS frame.
#[derive(Debug)]
pub struct Headers {
    stream_id: StreamId,
    header_block: Bytes,
    end_stream: bool,
    end_headers: bool,
    has_priority: bool,
    exclusive: bool,
    dependency: StreamId,
    weight: u8,
}

/// A [`Headers`] frame as plain values.
pub struct HeadersView {
    /// The stream that the headers belong to.
    pub stream_id: u32,
    /// The compressed header fields, or their first part.
    pub header_block: Seq<u8>,
    /// Whether nothing else follows on the stream.
    pub end_stream: bool,
    /// Whether the header block is complete.
    pub end_headers: bool,
    /// Whether the frame states a priority.
    pub has_priority: bool,
    /// Whether the dependency is exclusive.
    pub exclusive: bool,
    /// The stream that this one depends on.
    pub dependency: u32,
    /// The weight of the dependency.
    pub weight: u8,
}

impl View for Headers {
    type V = HeadersView;

    closed spec fn view(&self) -> HeadersView {
        HeadersView {
            stream_id: self.stream_id@,
            header_block: buf::content(self.header_block),
            end_stream: self.end_stream,
            end_headers: self.end_headers,
            has_priority: self.has_priority,
            exclusive: self.exclusive,
            dependency: self.dependency@,
            weight: self.weight,
        }
    }
}

impl HeadersView {
    /// A complete header block with nothing else said.
    pub open spec fn new(stream_id: u32, header_block: Seq<u8>) -> HeadersView {
        HeadersView {
            stream_id,
            header_block,
            end_stream: false,
            end_headers: true,
            has_priority: false,
            exclusive: false,
            dependency: 0,
            weight: 16,
        }
    }

    /// The flags on the wire.
    pub open spec fn flags(self) -> u8 {
        ((if self.end_stream {
            0x1int
        } else {
            0
        }) + (if self.end_headers {
            0x4int
        } else {
            0
        }) + (if self.has_priority {
            0x20int
        } else {
            0
        })) as u8
    }

    /// The priority fields on the wire.
    pub open spec fn priority_bytes(self) -> Seq<u8> {
        if self.has_priority {
            dependency_bytes(self.exclusive, self.dependency).push(self.weight)
        } else {
            Seq::empty()
        }
    }

    /// The frame on the wire.
    pub open spec fn bytes(self) -> Seq<u8> {
        frame::header_bytes(
            FRAME_TYPE_HEADERS,
            self.flags(),
            self.stream_id,
            frame::low32((self.priority_bytes().len() + self.header_block.len()) as int),
        ) + self.priority_bytes() + self.header_block
    }
}

/// A stream dependency on the wire: the stream, with the top bit for exclusiveness.
pub open spec fn dependency_bytes(exclusive: bool, dependency: u32) -> Seq<u8> {
    frame::be32(
        if exclusive {
            (dependency + 0x8000_0000) as u32
        } else {
            dependency
        },
    )
}

/// Appends a stream dependency.
pub(crate) fn put_dependency(dst: &mut Vec<u8>, exclusive: bool, dependency: StreamId)
    ensures
        final(dst)@ == old(dst)@ + dependency_bytes(exclusive, dependency@),
{
    let id: u32 = dependency.value();
    let word: u32 = if exclusive {
        id + 0x8000_0000
    } else {
        id
    };
    frame::put_be32(dst, word);
}

impl Headers {
    /// A HEADERS frame with a complete header block: END_HEADERS is set.
    pub fn new(stream_id: StreamId, header_block: Bytes) -> (h: Headers)
        ensures
            h@ == HeadersView::new(stream_id@, buf::content(header_block)),
    {
        Headers {
            stream_id,
            header_block,
            end_stream: false,
            end_headers: true,
            has_priority: false,
            exclusive: false,
            dependency: StreamId::zero(),
            weight: 16,
        }
    }

    /// The stream identifier.
    pub fn stream_id(&self) -> (id: StreamId)
        ensures
            id@ == self@.stream_id,
    {
        self.stream_id
    }

    /// The compressed header fields.
    pub fn header_block(&self) -> (b: &Bytes)
        ensures
            buf::content(*b) == self@.header_block,
    {
        &self.header_block
    }

    /// Whether END_STREAM is set.
    pub fn is_end_stream(&self) -> (r: bool)
        ensures
            r == self@.end_stream,
    {
        self.end_stream
    }

    /// Sets END_STREAM.
    pub fn set_end_stream(&mut self)
        ensures
            final(self)@ == (HeadersView { end_stream: true, ..old(self)@ }),
    {
        self.end_stream = true;
    }

    /// Whether END_HEADERS is set.
    pub fn is_end_headers(&self) -> (r: bool)
        ensures
            r == self@.end_headers,
    {
        self.end_headers
    }

    /// Clears END_HEADERS: CONTINUATION frames follow.
    pub fn clear_end_headers(&mut self)
        ensures
            final(self)@ == (HeadersView { end_headers: false, ..old(self)@ }),
    {
        self.end_headers = false;
    }

    /// Whether the frame states a priority.
    pub fn has_priority(&self) -> (r: bool)
        ensures
            r == self@.has_priority,
    {
        self.has_priority
    }

    /// Whether the dependency is exclusive.
    pub fn exclusive(&self) -> (r: bool)
        ensures
            r == self@.exclusive,
    {
        self.exclusive
    }

    /// The stream that this one depends on.
    pub fn dependency(&self) -> (id: StreamId)
        ensures
            id@ == self@.dependency,
    {
        self.dependency
    }

    /// The weight of the dependency.
    pub fn weight(&self) -> (w: u8)
        ensures
            w == self@.weight,
    {
        self.weight
    }

    /// States a priority.
    pub fn set_priority(&mut self, exclusive: bool, dependency: StreamId, weight: u8)
        ensures
            final(self)@ == (HeadersView {
                has_priority: true,
                exclusive,
                dependency: dependency@,
                weight,
                ..old(self)@
            }),
    {
        self.has_priority = true;
        self.exclusive = exclusive;
        self.dependency = dependency;
        self.weight = weight;
    }

    /// Appends the frame, header and payload, to `dst`.
    pub fn encode(&self, dst: &mut Vec<u8>)
        ensures
            final(dst)@ == old(dst)@ + self@.bytes(),
    {
        let mut flags: u8 = 0;
        if self.end_stream {
            flags = flags + 0x1;
        }
        if self.end_headers {
            flags = flags + 0x4;
        }
        let mut extra: u64 = 0;
        if self.has_priority {
            flags = flags + 0x20;
            extra = 5;
        }
        assert(self@.priority_bytes().len() == extra) by {
            reveal(frame::be32);
        }
        let length: u64 = (frame::truncate32(self.header_block.len()) as u64 + extra)
            % 0x1_0000_0000;
        let head: [u8; 9] = FrameHeader::new(
            FRAME_TYPE_HEADERS,
            flags,
            self.stream_id,
            length as u32,
        ).encode();
        buf::extend(dst, head.as_slice());
        if self.has_priority {
            put_dependency(dst, self.exclusive, self.dependency);
            dst.push(self.weight);
        }
        buf::extend(dst, buf::as_slice(&self.header_block));
        assert(dst@ =~= old(dst)@ + self@.bytes());
    }
}

/// CONTINUATION frame.
#[derive(Debug)]
pub struct Continuation {
    stream_id: StreamId,
    header_block: Bytes,
    end_headers: bool,
}

/// A [`Continuation`] frame as plain values.
pub struct ContinuationView {
    /// The stream that the headers belong to.
    pub stream_id: u32,
    /// A further part of the compressed header fields.
    pub header_block: Seq<u8>,
    /// Whether the header block is complete.
    pub end_headers: bool,
}

impl View for Continuation {
    type V = ContinuationView;

    closed spec fn view(&self) -> ContinuationView {
        ContinuationView {
            stream_id: self.stream_id@,
            header_block: buf::content(self.header_block),
            end_headers: self.end_headers,
        }
    }
}

impl ContinuationView {
    /// The frame on the wire.
    pub open spec fn bytes(self) -> Seq<u8> {
        frame::header_bytes(
            FRAME_TYPE_CONTINUATION,
            if self.end_headers {
                0x4
            } else {
                0x0
            },
            self.stream_id,
            frame::low32(self.header_block.len() as int),
        ) + self.header_block
    }
}

impl Continuation {
    /// A part of a header block that is not the last.
    pub fn new(stream_id: StreamId, header_block: Bytes) -> (c: Continuation)
        ensures
            c@ == (ContinuationView {
                stream_id: stream_id@,
                header_block: buf::content(header_block),
                end_headers: false,
            }),
    {
        Continuation { stream_id, header_block, end_headers: false }
    }

    /// The stream identifier.
    pub fn stream_id(&self) -> (id: StreamId)
        ensures
            id@ == self@.stream_id,
    {
        self.stream_id
    }

    /// The part of the header block.
    pub fn header_block(&self) -> (b: &Bytes)
        ensures
            buf::content(*b) == self@.header_block,
    {
        &self.header_block
    }

    /// Whether END_HEADERS is set.
    pub fn is_end_headers(&self) -> (r: bool)
        ensures
            r == self@.end_headers,
    {
        self.end_headers
    }

    /// Sets END_HEADERS: this is the last part.
    pub fn set_end_headers(&mut self)
        ensures
            final(self)@ == (ContinuationView { end_headers: true, ..old(self)@ }),
    {
        self.end_headers = true;
    }

    /// Appends the frame, header and payload, to `dst`.
    pub fn encode(&self, dst: &mut Vec<u8>)
        ensures
            final(dst)@ == old(dst)@ + self@.bytes(),
    {
        let flags: u8 = if self.end_headers {
            0x4
        } else {
            0x0
        };
        let head: [u8; 9] = FrameHeader::new(
            FRAME_TYPE_CONTINUATION,
            flags,
            self.stream_id,
            frame::truncate32(self.header_block.len()),
        ).encode();
        buf::extend(dst, head.as_slice());
        buf::extend(dst, buf::as_slice(&self.header_block));
        assert(dst@ =~= old(dst)@ + self@.bytes());
    }
}

} // verus!
