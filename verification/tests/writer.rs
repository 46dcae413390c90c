//! The writer: buffering, order, and the form of frames on the wire.

use bytes::Bytes;
use compio_h2::codec::{write_data_frames, write_headers_with_continuation, FrameWriter};
use compio_h2::error::Reason;
use compio_h2::frame::{
    Continuation, Data, Frame, FrameHeader, GoAway, Headers, Ping, Priority, RstStream, Settings,
    SettingsView, StreamId, WindowUpdate,
};

fn wire<W>(writer: &mut FrameWriter<W>) -> Vec<u8> {
    let mut all = Vec::new();
    for chunk in writer.take_ready() {
        all.extend_from_slice(&chunk);
    }
    all
}

fn split_frames(mut bytes: &[u8]) -> Vec<(FrameHeader, Vec<u8>)> {
    let mut frames = Vec::new();
    while !bytes.is_empty() {
        let mut head = [0u8; 9];
        head.copy_from_slice(&bytes[..9]);
        let header = FrameHeader::decode(&head);
        let end = 9 + header.length as usize;
        frames.push((header, bytes[9..end].to_vec()));
        bytes = &bytes[end..];
    }
    frames
}

fn bytes_of(frame: &Frame) -> Vec<u8> {
    let mut dst = Vec::new();
    frame.encode(&mut dst);
    dst
}

#[test]
fn test_write_and_read_frame() {
    let mut data_frame = Data::new(StreamId::new(1), Bytes::from_static(b"hello"));
    data_frame.set_end_stream();
    let frame = Frame::Data(data_frame);

    let mut writer = FrameWriter::new(());
    writer.write_frame(&frame);
    writer.flush_buf();

    let frames = split_frames(&wire(&mut writer));
    assert_eq!(frames.len(), 1);
    let (header, payload) = &frames[0];
    let d = Data::decode(
        header.stream_id,
        header.flags,
        Bytes::copy_from_slice(payload),
    )
    .unwrap();
    assert_eq!(d.stream_id().value(), 1);
    assert!(d.is_end_stream());
    assert_eq!(d.payload().as_ref(), b"hello");
}

#[test]
fn test_buffered_multiple_frames() {
    let mut writer = FrameWriter::new(());

    // Write multiple small frames
    let ping = Frame::Ping(Ping::new([1, 2, 3, 4, 5, 6, 7, 8]));
    let settings = Frame::Settings(Settings::ack());
    let wu = Frame::WindowUpdate(WindowUpdate::new(StreamId::zero(), 1000));

    writer.write_frame(&ping);
    writer.write_frame(&settings);
    writer.write_frame(&wu);
    assert!(writer.take_ready().is_empty());
    writer.flush_buf();

    // Read them all back
    let frames = split_frames(&wire(&mut writer));
    assert_eq!(frames.len(), 3);
    assert_eq!(frames[0].0.kind, 0x6);
    assert_eq!(frames[0].1, [1, 2, 3, 4, 5, 6, 7, 8]);
    assert_eq!(frames[1].0.kind, 0x4);
    assert_eq!(frames[1].0.flags, 0x1);
    assert_eq!(frames[2].0.kind, 0x8);
    assert_eq!(frames[2].1, [0, 0, 0x03, 0xe8]);
}

#[test]
fn test_write_data_frame_vectored() {
    let mut writer = FrameWriter::new(());

    let stream_id = StreamId::new(1);
    let payload = Bytes::from_static(b"hello world");
    let len = payload.len() as u32;

    // Build header manually
    let header = FrameHeader::new(0x0, 0x1, stream_id, len);
    writer.write_data_frame(header.encode(), &payload);

    // Read back
    let frames = split_frames(&wire(&mut writer));
    let (header, payload) = &frames[0];
    let d = Data::decode(
        header.stream_id,
        header.flags,
        Bytes::copy_from_slice(payload),
    )
    .unwrap();
    assert_eq!(d.stream_id().value(), 1);
    assert!(d.is_end_stream());
    assert_eq!(d.payload().as_ref(), b"hello world");
}

#[test]
fn buffered_frames_go_before_data() {
    let mut writer = FrameWriter::new(());
    writer.write_frame(&Frame::Settings(Settings::ack()));
    let header = FrameHeader::new(0x0, 0, StreamId::new(1), 2);
    writer.write_data_frame(header.encode(), &Bytes::from_static(b"hi"));
    let chunks = writer.take_ready();
    assert_eq!(chunks.len(), 3);
    assert_eq!(chunks[0].as_ref(), [0, 0, 0, 4, 1, 0, 0, 0, 0]);
    assert_eq!(chunks[1].as_ref(), [0, 0, 2, 0, 0, 0, 0, 0, 1]);
    assert_eq!(chunks[2].as_ref(), b"hi");
}

#[test]
fn empty_payload_takes_no_chunk() {
    let mut writer = FrameWriter::new(());
    let header = FrameHeader::new(0x0, 1, StreamId::new(1), 0);
    writer.write_data_frame(header.encode(), &Bytes::new());
    assert_eq!(writer.take_ready().len(), 1);
}

#[test]
fn buffer_is_flushed_at_the_threshold() {
    let mut writer = FrameWriter::new(());
    let data = Frame::Data(Data::new(StreamId::new(1), Bytes::from(vec![7; 16_374])));
    writer.write_frame(&data);
    // 16383 bytes wait
    assert!(writer.take_ready().is_empty());
    writer.write_frame(&Frame::Settings(Settings::ack()));
    let chunks = writer.take_ready();
    assert_eq!(chunks.len(), 1);
    assert_eq!(chunks[0].len(), 16_392);
}

#[test]
fn raw_bytes_follow_the_buffer() {
    let mut writer = FrameWriter::new(7u8);
    writer.write_frame(&Frame::Settings(Settings::ack()));
    writer.write_all_bytes(b"raw".to_vec());
    let chunks = writer.take_ready();
    assert_eq!(chunks.len(), 2);
    assert_eq!(chunks[1].as_ref(), b"raw");
    *writer.transport() += 1;
    assert_eq!(*writer.transport(), 8);
}

#[test]
fn control_frames_on_the_wire() {
    assert_eq!(
        bytes_of(&Frame::RstStream(RstStream::new(
            StreamId::new(3),
            Reason::EnhanceYourCalm
        ))),
        [0, 0, 4, 3, 0, 0, 0, 0, 3, 0, 0, 0, 11]
    );
    assert_eq!(
        bytes_of(&Frame::GoAway(GoAway::with_debug_data(
            StreamId::new(5),
            Reason::ProtocolError,
            Bytes::from_static(b"x")
        ))),
        [0, 0, 9, 7, 0, 0, 0, 0, 0, 0, 0, 0, 5, 0, 0, 0, 1, b'x']
    );
    assert_eq!(
        bytes_of(&Frame::Priority(Priority::new(
            StreamId::new(3),
            true,
            StreamId::new(1),
            9
        ))),
        [0, 0, 5, 2, 0, 0, 0, 0, 3, 0x80, 0, 0, 1, 9]
    );
    let mut values = Settings::new().values();
    values.max_concurrent_streams = Some(100);
    values.enable_push = Some(false);
    let settings = Settings::with_values(values).unwrap();
    assert_eq!(
        bytes_of(&Frame::Settings(settings)),
        [0, 0, 12, 4, 0, 0, 0, 0, 0, 0, 2, 0, 0, 0, 0, 0, 3, 0, 0, 0, 100]
    );
}

#[test]
fn settings_out_of_range_are_refused() {
    let base = Settings::new().values();
    assert!(Settings::with_values(SettingsView {
        initial_window_size: Some(0x8000_0000),
        ..base
    })
    .is_none());
    assert!(Settings::with_values(SettingsView {
        max_frame_size: Some(16_383),
        ..base
    })
    .is_none());
    assert!(Settings::with_values(SettingsView {
        max_frame_size: Some(16_777_216),
        ..base
    })
    .is_none());
    assert!(Settings::with_values(SettingsView {
        max_frame_size: Some(16_777_215),
        ..base
    })
    .is_some());
}

#[test]
fn headers_with_priority_on_the_wire() {
    let mut h = Headers::new(StreamId::new(1), Bytes::from_static(&[0x82]));
    h.set_priority(true, StreamId::new(3), 200);
    assert!(h.has_priority());
    assert!(h.exclusive());
    assert_eq!(h.dependency(), StreamId::new(3));
    assert_eq!(h.weight(), 200);
    assert_eq!(
        bytes_of(&Frame::Headers(h)),
        [0, 0, 6, 1, 0x24, 0, 0, 0, 1, 0x80, 0, 0, 3, 200, 0x82]
    );
}

#[test]
fn continuation_on_the_wire() {
    let mut c = Continuation::new(StreamId::new(1), Bytes::from_static(&[1, 2]));
    c.set_end_headers();
    assert_eq!(
        bytes_of(&Frame::Continuation(c)),
        [0, 0, 2, 9, 4, 0, 0, 0, 1, 1, 2]
    );
}

#[test]
fn data_is_split_into_frames() {
    let mut writer = FrameWriter::new(());
    let payload = Bytes::from((0u8..50).collect::<Vec<u8>>());
    write_data_frames(&mut writer, StreamId::new(3), &payload, true, 16);
    let frames = split_frames(&wire(&mut writer));
    let lens: Vec<usize> = frames.iter().map(|f| f.1.len()).collect();
    assert_eq!(lens, [16, 16, 16, 2]);
    let flags: Vec<u8> = frames.iter().map(|f| f.0.flags).collect();
    assert_eq!(flags, [0, 0, 0, 1]);
    let joined: Vec<u8> = frames.iter().flat_map(|f| f.1.clone()).collect();
    assert_eq!(joined, payload.as_ref());
}

#[test]
fn empty_data_takes_one_frame() {
    let mut writer = FrameWriter::new(());
    write_data_frames(&mut writer, StreamId::new(3), &Bytes::new(), true, 16);
    let frames = split_frames(&wire(&mut writer));
    assert_eq!(frames.len(), 1);
    assert_eq!(frames[0].0.flags, 1);
    assert_eq!(frames[0].0.length, 0);
}

#[test]
fn header_blocks_are_split_into_frames() {
    let mut writer = FrameWriter::new(());
    let block = Bytes::from((0u8..50).collect::<Vec<u8>>());
    let mut headers = Headers::new(StreamId::new(1), block.clone());
    headers.set_end_stream();
    headers.set_priority(false, StreamId::new(7), 3);
    write_headers_with_continuation(&mut writer, headers, 16);
    writer.flush_buf();
    let frames = split_frames(&wire(&mut writer));
    let kinds: Vec<u8> = frames.iter().map(|f| f.0.kind).collect();
    assert_eq!(kinds, [1, 9, 9, 9]);
    let flags: Vec<u8> = frames.iter().map(|f| f.0.flags).collect();
    assert_eq!(flags, [0x21, 0, 0, 4]);
    assert_eq!(frames[0].1[..5], [0, 0, 0, 7, 3]);
    let mut joined = frames[0].1[5..].to_vec();
    for f in &frames[1..] {
        joined.extend_from_slice(&f.1);
    }
    assert_eq!(joined, block.as_ref());
}

#[test]
fn header_block_of_the_largest_size_is_not_split() {
    let mut writer = FrameWriter::new(());
    let headers = Headers::new(StreamId::new(1), Bytes::from(vec![1; 16]));
    write_headers_with_continuation(&mut writer, headers, 16);
    writer.flush_buf();
    let frames = split_frames(&wire(&mut writer));
    assert_eq!(frames.len(), 1);
    assert_eq!(frames[0].0.flags, 4);
}
