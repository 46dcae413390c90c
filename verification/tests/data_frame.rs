//! DATA frames on the wire.

use bytes::Bytes;
use compio_h2::error::FrameError;
use compio_h2::frame::{Data, FrameHeader, StreamId};

#[test]
fn test_data_roundtrip() {
    let mut frame = Data::new(StreamId::new(1), Bytes::from_static(b"hello"));
    frame.set_end_stream();

    let mut buf = Vec::new();
    frame.encode(&mut buf);

    // Parse header
    assert_eq!(buf.len(), 9 + 5);
    let len = ((buf[0] as u32) << 16) | ((buf[1] as u32) << 8) | (buf[2] as u32);
    assert_eq!(len, 5);
    assert_eq!(buf[3], 0x0); // DATA type
    let flags = buf[4];
    let sid = ((buf[5] as u32) << 24)
        | ((buf[6] as u32) << 16)
        | ((buf[7] as u32) << 8)
        | (buf[8] as u32);

    let decoded =
        Data::decode(StreamId::new(sid), flags, Bytes::copy_from_slice(&buf[9..])).unwrap();
    assert_eq!(decoded.stream_id().value(), 1);
    assert!(decoded.is_end_stream());
    assert_eq!(decoded.payload().as_ref(), b"hello");
}

#[test]
fn padding_is_stripped_and_charged() {
    let wire = Bytes::from_static(&[3, b'a', b'b', 0, 0, 0]);
    let data = Data::decode(StreamId::new(5), 0x8, wire).unwrap();
    assert!(data.is_padded());
    assert!(!data.is_end_stream());
    assert_eq!(data.payload().as_ref(), b"ab");
    assert_eq!(data.flow_controlled_len(), 6);
    assert_eq!(data.flags(), 0x8);
    assert_eq!(data.clone().into_payload().as_ref(), b"ab");
}

#[test]
fn unpadded_frames_are_charged_by_their_data() {
    let data = Data::decode(StreamId::new(5), 0x1, Bytes::from_static(b"abc")).unwrap();
    assert_eq!(data.flow_controlled_len(), 3);
    assert!(data.is_end_stream());
    assert!(!data.is_padded());
}

#[test]
fn all_padding_leaves_no_data() {
    let data = Data::decode(StreamId::new(5), 0x8, Bytes::from_static(&[2, 0, 0])).unwrap();
    assert!(data.payload().is_empty());
    assert_eq!(data.flow_controlled_len(), 3);
}

#[test]
fn data_on_stream_zero_is_rejected() {
    let err = Data::decode(StreamId::new(0), 0, Bytes::new()).unwrap_err();
    assert!(matches!(err, FrameError::InvalidStreamId(_)));
    assert_eq!(err.text(), "DATA frame with stream ID 0");
}

#[test]
fn bad_padding_is_rejected() {
    let err = Data::decode(StreamId::new(1), 0x8, Bytes::new()).unwrap_err();
    assert!(matches!(err, FrameError::InvalidPadding(_)));
    assert_eq!(err.text(), "padded DATA frame with no pad length");
    let err = Data::decode(StreamId::new(1), 0x8, Bytes::from_static(&[2, 0])).unwrap_err();
    assert_eq!(err.text(), "pad length exceeds frame payload");
}

#[test]
fn stream_identifiers_have_31_bits() {
    assert_eq!(StreamId::new(0x8000_0001).value(), 1);
    assert_eq!(StreamId::new(0x7fff_ffff).value(), 0x7fff_ffff);
    assert!(StreamId::new(0x8000_0000).is_zero());
    assert!(StreamId::zero().is_zero());
}

#[test]
fn frame_header_round_trip() {
    let header = FrameHeader::new(0x1, 0x5, StreamId::new(0x0102_0304), 0x0a_0b0c);
    let bytes = header.encode();
    assert_eq!(bytes, [0x0a, 0x0b, 0x0c, 0x1, 0x5, 1, 2, 3, 4]);
    let back = FrameHeader::decode(&bytes);
    assert_eq!(back.length, 0x0a_0b0c);
    assert_eq!(back.kind, 0x1);
    assert_eq!(back.flags, 0x5);
    assert_eq!(back.stream_id, StreamId::new(0x0102_0304));
    // The reserved bit is ignored
    let mut marked = bytes;
    marked[5] |= 0x80;
    assert_eq!(
        FrameHeader::decode(&marked).stream_id,
        StreamId::new(0x0102_0304)
    );
}
