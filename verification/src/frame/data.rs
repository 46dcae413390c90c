//! DATA frames.

use super::{FrameHeader, StreamId, FRAME_TYPE_DATA};
use crate::buf;
use crate::error::{FrameError, FrameErrorView};
use crate::frame;
use bytes::Bytes;
use vstd::prelude::*;
use vstd::string::*;

verus! {

/// Flag: no more data follows on this stream.
pub const FLAG_END_STREAM: u8 = 0x1;

/// Flag: the payload starts with a pad length and ends with that many bytes of padding.
pub const FLAG_PADDED: u8 = 0x8;

/// DATA frame.
#[derive(Debug)]
pub struct Data {
    stream_id: StreamId,
    payload: Bytes,
    flags: u8,
    /// Bytes that the pad length and the padding took on the wire.
    padding: u32,
}

/// A [`Data`] frame as plain values.
pub struct DataView {
    /// The stream that the data belongs to.
    pub stream_id: u32,
    /// The data, without padding.
    pub payload: Seq<u8>,
    /// Flags.
    pub flags: u8,
    /// Bytes that the pad length and the padding took on the wire.
    pub padding: u32,
}

impl View for Data {
    type V = DataView;

    closed spec fn view(&self) -> DataView {
        DataView {
            stream_id: self.stream_id@,
            payload: buf::content(self.payload),
            flags: self.flags,
            padding: self.padding,
        }
    }
}

impl Clone for Data {
    fn clone(&self) -> (r: Data)
        ensures
            r@ == self@,
    {
        Data {
            stream_id: self.stream_id,
            payload: self.payload.clone(),
            flags: self.flags,
            padding: self.padding,
        }
    }
}

impl DataView {
    /// A frame with `payload` and no flag.
    pub open spec fn new(stream_id: u32, payload: Seq<u8>) -> DataView {
        DataView { stream_id, payload, flags: 0, padding: 0 }
    }

    /// Whether no more data follows.
    pub open spec fn end_stream(self) -> bool {
        self.flags & FLAG_END_STREAM != 0
    }

    /// Whether the frame was padded.
    pub open spec fn padded(self) -> bool {
        self.flags & FLAG_PADDED != 0
    }

    /// The number of bytes that flow control charges: the payload as it was on the
    /// wire, padding included.
    pub open spec fn flow_controlled_len(self) -> nat {
        self.payload.len() + self.padding as nat
    }

    /// The frame on the wire.
    pub open spec fn bytes(self) -> Seq<u8> {
        frame::header_bytes(
            FRAME_TYPE_DATA,
            self.flags,
            self.stream_id,
            frame::low32(self.payload.len() as int),
        ) + self.payload
    }
}

/// What a DATA frame with this stream, these flags and this payload on the wire says.
pub open spec fn decode_data(stream_id: u32, flags: u8, payload: Seq<u8>) -> Result<
    DataView,
    FrameErrorView,
> {
    if stream_id == 0 {
        Err(FrameErrorView::InvalidStreamId("DATA frame with stream ID 0"@))
    } else if flags & FLAG_PADDED == 0 {
        Ok(DataView { stream_id, payload, flags, padding: 0 })
    } else if payload.len() == 0 {
        Err(FrameErrorView::InvalidPadding("padded DATA frame with no pad length"@))
    } else if payload[0] >= payload.len() {
        Err(FrameErrorView::InvalidPadding("pad length exceeds frame payload"@))
    } else {
        Ok(
            DataView {
                stream_id,
                payload: payload.subrange(1, payload.len() - payload[0]),
                flags,
                padding: (payload[0] + 1) as u32,
            },
        )
    }
}

impl Data {
    /// Create a new DATA frame with the given stream ID and payload.
    pub fn new(stream_id: StreamId, payload: Bytes) -> (d: Data)
        ensures
            d@ == DataView::new(stream_id@, buf::content(payload)),
    {
        Data { stream_id, payload, flags: 0, padding: 0 }
    }

    /// The stream identifier for this DATA frame.
    pub fn stream_id(&self) -> (id: StreamId)
        ensures
            id@ == self@.stream_id,
    {
        self.stream_id
    }

    /// A reference to the frame payload data.
    pub fn payload(&self) -> (p: &Bytes)
        ensures
            buf::content(*p) == self@.payload,
    {
        &self.payload
    }

    /// Consume this frame and return the payload data.
    pub fn into_payload(self) -> (p: Bytes)
        ensures
            buf::content(p) == self@.payload,
    {
        self.payload
    }

    /// Whether the END_STREAM flag (0x1) is set.
    pub fn is_end_stream(&self) -> (r: bool)
        ensures
            r == self@.end_stream(),
    {
        self.flags & FLAG_END_STREAM != 0
    }

    /// Set the END_STREAM flag, indicating no further data will be sent on
    /// this stream.
    pub fn set_end_stream(&mut self)
        ensures
            final(self)@ == (DataView { flags: old(self)@.flags | FLAG_END_STREAM, ..old(self)@ }),
            final(self)@.end_stream(),
            final(self)@.padded() == old(self)@.padded(),
    {
        let f: u8 = self.flags;
        assert((f | 0x1u8) & 0x1u8 != 0u8 && (f | 0x1u8) & 0x8u8 == f & 0x8u8) by (bit_vector);
        self.flags = f | FLAG_END_STREAM;
    }

    /// Whether the PADDED flag (0x8) is set.
    pub fn is_padded(&self) -> (r: bool)
        ensures
            r == self@.padded(),
    {
        self.flags & FLAG_PADDED != 0
    }

    /// The raw flags byte.
    pub fn flags(&self) -> (f: u8)
        ensures
            f == self@.flags,
    {
        self.flags
    }

    /// The number of bytes that flow control charges for this frame: the whole
    /// payload on the wire, with the pad length and the padding.
    pub fn flow_controlled_len(&self) -> (n: u128)
        ensures
            n == self@.flow_controlled_len(),
    {
        self.payload.len() as u128 + self.padding as u128
    }

    /// Decode a DATA frame from the payload bytes (after the 9-byte header).
    pub fn decode(stream_id: StreamId, flags: u8, payload: Bytes) -> (r: Result<Data, FrameError>)
        ensures
            match r {
                Ok(d) => decode_data(stream_id@, flags, buf::content(payload)) == Ok::<
                    DataView,
                    FrameErrorView,
                >(d@),
                Err(e) => decode_data(stream_id@, flags, buf::content(payload)) == Err::<
                    DataView,
                    FrameErrorView,
                >(e@),
            },
    {
        if stream_id.is_zero() {
            return Err(FrameError::InvalidStreamId("DATA frame with stream ID 0".to_owned()));
        }
        if flags & FLAG_PADDED == 0 {
            return Ok(Data { stream_id, payload, flags, padding: 0 });
        }
        if payload.is_empty() {
            return Err(
                FrameError::InvalidPadding("padded DATA frame with no pad length".to_owned()),
            );
        }
        let pad_len: u8 = buf::as_slice(&payload)[0];
        if pad_len as usize >= payload.len() {
            return Err(FrameError::InvalidPadding("pad length exceeds frame payload".to_owned()));
        }
        let data = buf::slice(&payload, 1, payload.len() - pad_len as usize);
        Ok(Data { stream_id, payload: data, flags, padding: pad_len as u32 + 1 })
    }

    /// Encode this DATA frame into bytes (header + payload).
    pub fn encode(&self, dst: &mut Vec<u8>)
        ensures
            final(dst)@ == old(dst)@ + self@.bytes(),
    {
        let header = FrameHeader::new(
            FRAME_TYPE_DATA,
            self.flags,
            self.stream_id,
            frame::truncate32(self.payload.len()),
        );
        let head: [u8; 9] = header.encode();
        buf::extend(dst, head.as_slice());
        buf::extend(dst, buf::as_slice(&self.payload));
        assert(dst@ =~= old(dst)@ + self@.bytes());
    }
}

/// An unpadded DATA frame that was written reads back: the header tells the
/// stream, the flags and the length, and decoding the bytes behind it gives the
/// same frame.
pub proof fn lemma_data_round_trip(d: DataView)
    requires
        0 < d.stream_id <= frame::MAX_31_BIT,
        d.payload.len() <= frame::LARGEST_MAX_FRAME_SIZE,
        !d.padded(),
        d.padding == 0,
    ensures
        ({
            let h = frame::parse_header(d.bytes());
            &&& h.kind == FRAME_TYPE_DATA
            &&& h.length == d.bytes().len() - 9
            &&& decode_data(h.stream_id, h.flags, d.bytes().skip(9)) == Ok::<
                DataView,
                FrameErrorView,
            >(d)
        }),
{
    let length = frame::low32(d.payload.len() as int);
    let head = frame::header_bytes(FRAME_TYPE_DATA, d.flags, d.stream_id, length);
    frame::lemma_header_round_trip(FRAME_TYPE_DATA, d.flags, d.stream_id, length);
    assert(forall|i: int| 0 <= i < 9 ==> d.bytes()[i] == head[i]);
    assert(d.bytes().skip(9) =~= d.payload);
}

/// Padding is taken off: of a padded frame the data is left, and the padding is counted with the
/// byte that states its length. Without the flag nothing is taken off. Data belongs to a stream,
/// and the padding may not be longer than what follows its length.
pub proof fn lemma_padding_is_taken_off(id: u32, flags: u8, data: Seq<u8>, pad: Seq<u8>)
    requires
        id != 0,
        pad.len() <= 255,
    ensures
        flags & 8 != 0 ==> decode_data(id, flags, seq![pad.len() as u8] + data + pad) == Ok::<
            DataView,
            FrameErrorView,
        >(
            DataView {
                stream_id: id,
                payload: data,
                flags,
                padding: (pad.len() + 1) as u32,
            },
        ),
        flags & 8 == 0 ==> decode_data(id, flags, data) == Ok::<DataView, FrameErrorView>(
            DataView { stream_id: id, payload: data, flags, padding: 0 },
        ),
        flags & 8 != 0 && data.len() > 0 && data[0] >= data.len() ==> (decode_data(
            id,
            flags,
            data,
        ) matches Err(FrameErrorView::InvalidPadding(_))),
        flags & 8 != 0 && data.len() == 0 ==> (decode_data(id, flags, data) matches Err(
            FrameErrorView::InvalidPadding(_),
        )),
        decode_data(0, flags, data) matches Err(FrameErrorView::InvalidStreamId(_)),
{
    let whole = seq![pad.len() as u8] + data + pad;
    assert(whole[0] == pad.len());
    assert(whole.subrange(1, whole.len() - pad.len()) =~= data);
}

} // verus!
