//! How a connection starts, takes messages, flushes and ends.

use bytes::Bytes;
use compio_h2::builder::{default_config, ClientBuilder};
use compio_h2::codec::FrameWriter;
use compio_h2::error::{FrameError, H2Error, Reason};
use compio_h2::frame::{
    Data, Frame, FrameHeader, Headers, Ping, StreamId, PREFACE,
};
use compio_h2::proto::connection::{Command, ConnConfig, ConnState, InternalMsg};
use compio_h2::proto::event_loop::{
    hpack_limits, reader_limits, start_client, start_server, Action, EventLoop, Next, BATCH_LIMIT,
};
use compio_h2::proto::events::{Event, Ticket};
use compio_h2::proto::headers::DecodedHeader;
use compio_h2::proto::settings::ConnSettings;
use compio_h2::proto::streams::StreamState;

fn id(n: u32) -> StreamId {
    StreamId::new(n)
}

fn header(name: String, value: &'static str) -> DecodedHeader {
    DecodedHeader {
        name: Bytes::from(name),
        value: Bytes::from(value),
        sensitive: false,
    }
}

fn output(writer: &mut FrameWriter<()>) -> Vec<u8> {
    let mut all = Vec::new();
    for chunk in writer.take_ready() {
        all.extend_from_slice(&chunk);
    }
    all
}

fn frames_of(mut rest: &[u8]) -> Vec<(FrameHeader, Vec<u8>)> {
    let mut frames = Vec::new();
    while !rest.is_empty() {
        let mut head = [0u8; 9];
        head.copy_from_slice(&rest[..9]);
        let header = FrameHeader::decode(&head);
        let end = 9 + header.length as usize;
        frames.push((header, rest[9..end].to_vec()));
        rest = &rest[end..];
    }
    frames
}

fn started() -> (ConnState, FrameWriter<()>) {
    let mut writer = FrameWriter::new(());
    let conn = start_client(default_config(), &mut writer);
    writer.flush_buf();
    writer.take_ready();
    (conn, writer)
}

fn take(
    turns: &mut EventLoop,
    conn: &mut ConnState,
    writer: &mut FrameWriter<()>,
    msg: InternalMsg,
) -> Action {
    assert!(conn.can_take(&msg, &Ok(Vec::new())));
    turns.message(conn, msg, Ok(Vec::new()), 0, &[], writer)
}

fn ping() -> InternalMsg {
    InternalMsg::Frame(Ok(Some(Frame::Ping(Ping::new([0; 8])))))
}

fn eof() -> InternalMsg {
    InternalMsg::Frame(Ok(None))
}

fn new_stream() -> InternalMsg {
    InternalMsg::Cmd(Command::NewStream {
        headers: Vec::new(),
        end_stream: false,
        response_tx: Ticket(1),
    })
}

fn goaway() -> InternalMsg {
    InternalMsg::Cmd(Command::GoAway {
        response_tx: Ticket(2),
    })
}

fn open_stream(turns: &mut EventLoop, conn: &mut ConnState, writer: &mut FrameWriter<()>) {
    match take(turns, conn, writer, new_stream()) {
        Action::Encode(job) => {
            let action = turns.encoded(conn, job, Bytes::new(), &[], writer);
            assert!(matches!(action, Action::TryReceive));
        }
        _ => panic!("expected a header list"),
    }
    conn.take_events();
}

#[test]
fn client_opens_with_the_preface_and_settings() {
    let mut writer = FrameWriter::new(());
    let conn = start_client(default_config(), &mut writer);
    writer.flush_buf();
    let bytes = output(&mut writer);
    assert_eq!(&bytes[..24], b"PRI * HTTP/2.0\r\n\r\nSM\r\n\r\n");
    let frames = frames_of(&bytes[24..]);
    assert_eq!(frames.len(), 1);
    assert_eq!(frames[0].0.kind, 0x4);
    assert_eq!(frames[0].0.flags, 0x0);
    assert_eq!(frames[0].1, vec![0, 4, 0, 0, 0xff, 0xff]);
    assert!(conn.is_client);
    assert_eq!(conn.max_send_buffer_size, 409_600);
}

#[test]
fn larger_connection_window_is_announced() {
    let config = ConnConfig {
        initial_connection_window_size: Some(100_000),
        ..default_config()
    };
    let mut writer = FrameWriter::new(());
    let conn = start_client(config, &mut writer);
    assert_eq!(conn.conn_recv_flow.window_size(), 100_000);
    writer.flush_buf();
    let frames = frames_of(&output(&mut writer)[24..]);
    assert_eq!(frames.len(), 2);
    assert_eq!(frames[1].0.kind, 0x8);
    // 100000 - 65535
    assert_eq!(frames[1].1, vec![0, 0, 0x86, 0xa1]);

    // A smaller one cannot be announced
    let config = ConnConfig {
        initial_connection_window_size: Some(1000),
        ..default_config()
    };
    start_client(config, &mut writer);
    writer.flush_buf();
    assert_eq!(frames_of(&output(&mut writer)[24..]).len(), 1);
}

#[test]
fn server_requires_the_preface() {
    let mut writer = FrameWriter::new(());
    let conn = start_server(
        default_config(),
        b"PRI * HTTP/2.0\r\n\r\nSM\r\n\r\n",
        &mut writer,
    );
    assert!(!conn.unwrap().is_client);
    writer.flush_buf();
    assert_eq!(frames_of(&output(&mut writer))[0].0.kind, 0x4);

    let error = match start_server(default_config(), b"GET / HTTP/1.1\r\n", &mut writer) {
        Err(e) => e,
        Ok(_) => panic!("expected a refusal"),
    };
    assert_eq!(error.to_string(), "protocol error: invalid client preface");
    let frames = frames_of(&output(&mut writer));
    assert_eq!(frames.len(), 1);
    assert_eq!(frames[0].0.kind, 0x7);
    assert_eq!(frames[0].1, vec![0, 0, 0, 0, 0, 0, 0, 1]);
}

#[test]
fn limits_follow_the_local_settings() {
    let mut config = default_config();
    let limits = reader_limits(&config);
    assert_eq!(limits.max_frame_size, None);
    assert_eq!(limits.max_header_list_size, None);
    let hpack = hpack_limits(&config.settings);
    assert_eq!(hpack.table_size, 4096);
    assert_eq!(hpack.decoder_max_header_list_size, u32::MAX as usize);
    assert_eq!(hpack.encoder_max_header_list_size, None);

    config.settings.local.max_frame_size = 20_000;
    config.settings.local.max_header_list_size = 8_192;
    let limits = reader_limits(&config);
    assert_eq!(limits.max_frame_size, Some(20_000));
    assert_eq!(limits.max_header_list_size, Some(8_192));
    let hpack = hpack_limits(&config.settings);
    assert_eq!(hpack.decoder_max_header_list_size, 8_192);
    assert_eq!(hpack.encoder_max_header_list_size, Some(8_192));
}

#[test]
fn a_batch_is_flushed_at_its_limit() {
    let (mut conn, mut writer) = started();
    let mut turns = EventLoop::new();
    for n in 1..=BATCH_LIMIT {
        let action = take(&mut turns, &mut conn, &mut writer, ping());
        if n < BATCH_LIMIT {
            assert!(matches!(action, Action::TryReceive));
            assert!(writer.take_ready().is_empty());
        } else {
            assert!(matches!(action, Action::Receive));
        }
    }
    assert_eq!(frames_of(&output(&mut writer)).len(), 32);
    // The next batch starts anew
    assert!(matches!(
        take(&mut turns, &mut conn, &mut writer, ping()),
        Action::TryReceive
    ));
}

#[test]
fn a_batch_is_flushed_when_no_message_is_left() {
    let (mut conn, mut writer) = started();
    let mut turns = EventLoop::new();
    take(&mut turns, &mut conn, &mut writer, ping());
    take(&mut turns, &mut conn, &mut writer, ping());
    let action = turns.no_message(&mut conn, &[], &mut writer);
    assert!(matches!(action, Action::Receive));
    assert_eq!(frames_of(&output(&mut writer)).len(), 2);
}

#[test]
fn the_end_of_the_input_closes_the_connection() {
    let (mut conn, mut writer) = started();
    conn.ready_waiters.push(Ticket(5));
    let mut turns = EventLoop::new();
    let action = take(&mut turns, &mut conn, &mut writer, eof());
    assert!(matches!(action, Action::Closed));
    let events = conn.take_events();
    assert_eq!(events.len(), 1);
    match &events[0] {
        Event::Done { ticket, result } => {
            assert_eq!(*ticket, Ticket(5));
            assert_eq!(
                result.as_ref().unwrap_err().reason(),
                Some(Reason::RefusedStream)
            );
        }
        _ => panic!("expected the waiter to be told"),
    }

    // Within a batch what was written is flushed first
    let (mut conn, mut writer) = started();
    conn.ready_waiters.push(Ticket(6));
    let mut turns = EventLoop::new();
    take(&mut turns, &mut conn, &mut writer, ping());
    let action = take(&mut turns, &mut conn, &mut writer, eof());
    assert!(matches!(action, Action::Closed));
    assert_eq!(frames_of(&output(&mut writer)).len(), 1);
    let events = conn.take_events();
    assert_eq!(events.len(), 1);
    assert!(matches!(&events[0], Event::Done { ticket: Ticket(6), result: Err(_) }));
}

#[test]
fn settings_are_announced_as_they_were_made() {
    let config = ClientBuilder::new().max_frame_size(5).config;
    let mut writer = FrameWriter::new(());
    start_client(config, &mut writer);
    writer.flush_buf();
    let bytes = output(&mut writer);
    let frames = frames_of(&bytes[24..]);
    assert_eq!(frames[0].0.kind, 0x4);
    assert_eq!(
        frames[0].1,
        vec![0, 4, 0, 0, 0xff, 0xff, 0, 5, 0, 0, 0, 5]
    );
}

#[test]
fn nobody_left_to_send_closes_the_connection() {
    let (mut conn, mut writer) = started();
    let mut turns = EventLoop::new();
    let action = turns.no_message(&mut conn, &[], &mut writer);
    assert!(matches!(action, Action::Closed));
    assert!(output(&mut writer).is_empty());
}

#[test]
fn a_failure_is_announced_once() {
    let (mut conn, mut writer) = started();
    let mut turns = EventLoop::new();
    let stray = InternalMsg::Frame(Ok(Some(Frame::Data(Data::new(id(2), Bytes::new())))));
    match take(&mut turns, &mut conn, &mut writer, stray) {
        Action::Failed { error, shut_down } => {
            assert_eq!(error.reason(), Some(Reason::ProtocolError));
            assert!(shut_down);
        }
        _ => panic!("expected a failure"),
    }
    let frames = frames_of(&output(&mut writer));
    assert_eq!(frames.len(), 1);
    assert_eq!(frames[0].0.kind, 0x7);
    assert_eq!(frames[0].1, vec![0, 0, 0, 0, 0, 0, 0, 1]);

    // A connection that goes away has said so already
    let (mut conn, mut writer) = started();
    conn.going_away = true;
    let mut turns = EventLoop::new();
    let stray = InternalMsg::Frame(Ok(Some(Frame::Data(Data::new(id(2), Bytes::new())))));
    assert!(matches!(
        take(&mut turns, &mut conn, &mut writer, stray),
        Action::Failed {
            shut_down: true,
            ..
        }
    ));
    assert!(output(&mut writer).is_empty());
}

#[test]
fn failures_of_the_reader_get_a_reason() {
    for (error, reason) in [
        (
            H2Error::Frame(FrameError::InvalidFrameSize("s".to_string())),
            Reason::FrameSizeError,
        ),
        (
            H2Error::Frame(FrameError::FlowControlError("w".to_string())),
            Reason::FlowControlError,
        ),
        (
            H2Error::Frame(FrameError::InvalidStreamId("i".to_string())),
            Reason::ProtocolError,
        ),
        (
            H2Error::HpackDecode("h".to_string()),
            Reason::CompressionError,
        ),
        (H2Error::Hpack("h".to_string()), Reason::CompressionError),
        (H2Error::Io("i".to_string()), Reason::ProtocolError),
        (
            H2Error::connection(Reason::EnhanceYourCalm),
            Reason::EnhanceYourCalm,
        ),
    ] {
        let (mut conn, mut writer) = started();
        let result = conn.dispatch_msg(
            InternalMsg::Frame(Err(error)),
            Ok(Vec::new()),
            0,
            &mut writer,
        );
        assert_eq!(result.unwrap_err().reason(), Some(reason));
    }
}

#[test]
fn graceful_shutdown_waits_for_streams() {
    let (mut conn, mut writer) = started();
    let mut turns = EventLoop::new();
    open_stream(&mut turns, &mut conn, &mut writer);
    take(&mut turns, &mut conn, &mut writer, goaway());
    let action = turns.no_message(&mut conn, &[], &mut writer);
    assert!(matches!(action, Action::Receive));

    let reset = InternalMsg::Cmd(Command::SendReset {
        stream_id: id(1),
        reason: Reason::NoError,
        response_tx: Ticket(3),
    });
    take(&mut turns, &mut conn, &mut writer, reset);
    let action = turns.no_message(&mut conn, &[], &mut writer);
    assert!(matches!(action, Action::Closed));
}

#[test]
fn abrupt_shutdown_does_not_wait() {
    let (mut conn, mut writer) = started();
    let mut turns = EventLoop::new();
    open_stream(&mut turns, &mut conn, &mut writer);
    let shutdown = InternalMsg::Cmd(Command::AbruptShutdown {
        reason: Reason::InternalError,
        response_tx: Ticket(3),
    });
    take(&mut turns, &mut conn, &mut writer, shutdown);
    let action = turns.no_message(&mut conn, &[], &mut writer);
    assert!(matches!(action, Action::Closed));
    assert!(conn.ready_waiters.is_empty());
    assert_eq!(conn.streams.active_count(), 0);
}

#[test]
fn released_capacity_is_recorded() {
    let (mut conn, mut writer) = started();
    let mut turns = EventLoop::new();
    open_stream(&mut turns, &mut conn, &mut writer);
    let release = InternalMsg::ReleaseCapacity {
        stream_id: id(1),
        amount: 10,
    };
    assert!(matches!(
        conn.dispatch_msg(release, Ok(Vec::new()), 0, &mut writer),
        Ok(Next::Continue)
    ));
    assert_eq!(conn.streams.get(&id(1)).unwrap().released, 10);
    // A stream that is not known is passed over
    let release = InternalMsg::ReleaseCapacity {
        stream_id: id(9),
        amount: 10,
    };
    assert!(matches!(
        conn.dispatch_msg(release, Ok(Vec::new()), 0, &mut writer),
        Ok(Next::Continue)
    ));
}

#[test]
fn data_travels_from_one_end_to_the_other() {
    let (mut conn, mut writer) = started();
    let mut turns = EventLoop::new();
    open_stream(&mut turns, &mut conn, &mut writer);
    let send = InternalMsg::Cmd(Command::SendData {
        stream_id: id(1),
        data: Bytes::from(vec![9u8; 17_000]),
        end_stream: true,
        response_tx: Ticket(4),
    });
    take(&mut turns, &mut conn, &mut writer, send);
    turns.no_message(&mut conn, &[], &mut writer);
    let frames = frames_of(&output(&mut writer));
    let mut peer_writer = FrameWriter::new(());
    let mut peer = start_server(
        default_config(),
        b"PRI * HTTP/2.0\r\n\r\nSM\r\n\r\n",
        &mut peer_writer,
    )
    .ok()
    .unwrap();
    peer.streams.insert(id(1), 65_535, 65_535);
    peer.streams.get_mut(&id(1)).unwrap().state = StreamState::Open;
    let mut received = Vec::new();
    for (header, payload) in frames {
        if header.kind != 0x0 {
            continue;
        }
        let data = Data::decode(header.stream_id, header.flags, Bytes::from(payload)).unwrap();
        peer.handle_data(data, &mut peer_writer).unwrap();
        for event in peer.take_events() {
            if let Event::Data { data, .. } = event {
                received.extend_from_slice(&data);
            }
        }
    }
    assert_eq!(received, vec![9u8; 17_000]);
    assert_eq!(
        peer.streams.get(&id(1)).unwrap().state,
        StreamState::HalfClosedRemote
    );
}

#[test]
fn counters_without_room_are_reported() {
    let (mut conn, _) = started();
    conn.streams.insert(id(1), 10, 20);
    conn.streams.get_mut(&id(1)).unwrap().received_data_bytes = u64::MAX - 2;
    let none = Ok(Vec::new());
    let data = |n: usize| {
        InternalMsg::Frame(Ok(Some(Frame::Data(Data::new(
            id(1),
            Bytes::from(vec![0u8; n]),
        )))))
    };
    assert!(conn.can_take(&data(2), &none));
    assert!(!conn.can_take(&data(3), &none));
    assert!(conn.can_take(&ping(), &none));
    // Nothing is counted on a stream that is not known
    conn.streams.get_mut(&id(1)).unwrap().state = StreamState::Closed;
    conn.streams.gc_closed();
    assert!(conn.can_take(&data(3), &none));
}

#[test]
fn settings_without_room_for_a_payload_are_reported() {
    let (conn, _) = started();
    let none = Ok(Vec::new());
    let settings = |size: u32| {
        let mut settings = ConnSettings::new();
        settings.local.max_frame_size = size;
        InternalMsg::Frame(Ok(Some(Frame::Settings(
            settings.build_initial_settings(),
        ))))
    };
    assert!(!conn.can_take(&settings(0), &none));
    assert!(conn.can_take(&settings(1), &none));
}

#[test]
fn long_header_lists_open_streams() {
    let mut fields: Vec<DecodedHeader> = [
        (":method", "GET"),
        (":scheme", "https"),
        (":path", "/"),
    ]
    .iter()
    .map(|(name, value)| header(name.to_string(), value))
    .collect();
    fields.extend((0..6554).map(|i| header(format!("x-{}", i), "v")));
    let mut writer = FrameWriter::new(());
    let mut conn = start_server(default_config(), PREFACE.as_bytes(), &mut writer).unwrap();
    let msg = |n: u32| InternalMsg::Frame(Ok(Some(Frame::Headers(Headers::new(id(n), Bytes::new())))));
    assert!(conn.can_take(&msg(1), &Ok(fields.clone())));
    let mut turns = EventLoop::new();
    turns.message(&mut conn, msg(1), Ok(fields.clone()), 0, &[], &mut writer);
    let events = conn.take_events();
    match &events[0] {
        Event::Incoming(incoming) => assert_eq!(incoming.headers.len(), 6557),
        _ => panic!("expected a request"),
    }
    // Trailers become a header map, which may refuse to grow
    assert!(!conn.can_take(&msg(1), &Ok(fields[3..].to_vec())));
    assert!(conn.can_take(&msg(1), &Ok(fields[4..].to_vec())));
    assert!(conn.can_take(&msg(3), &Ok(fields)));
    assert!(conn.can_take(&msg(1), &Err(H2Error::stream(1, Reason::InternalError))));
}

#[test]
fn one_streams_headers_fail_alone() {
    let (mut conn, mut writer) = started();
    conn.streams.insert(id(1), 10, 20);
    conn.streams.get_mut(&id(1)).unwrap().state = StreamState::Open;
    let msg = InternalMsg::Frame(Ok(Some(Frame::Headers(Headers::new(id(1), Bytes::new())))));
    let failed = Err(H2Error::stream(1, Reason::InternalError));
    assert!(conn.can_take(&msg, &failed));
    let mut turns = EventLoop::new();
    let action = turns.message(&mut conn, msg, failed, 0, &[], &mut writer);
    assert!(matches!(action, Action::TryReceive));
    let action = turns.no_message(&mut conn, &[], &mut writer);
    assert!(matches!(action, Action::Receive));
    let frames = frames_of(&output(&mut writer));
    assert_eq!(frames.len(), 1);
    assert_eq!(frames[0].0.kind, 3);
    assert_eq!(frames[0].1, vec![0, 0, 0, 2]);
}
