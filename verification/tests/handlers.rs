//! What a connection does with the frames that the peer sends.

use bytes::Bytes;
use compio_h2::codec::FrameWriter;
use compio_h2::error::{FrameError, H2Error, Reason};
use compio_h2::frame::{
    Continuation, Data, Frame, FrameHeader, GoAway, Headers, Ping, Priority, RstStream, Settings,
    SettingsView, StreamId, WindowUpdate,
};
use compio_h2::proto::connection::{ConnExtra, ConnState};
use compio_h2::proto::events::{Event, Ticket};
use compio_h2::proto::flow_control::FlowControl;
use compio_h2::proto::headers::DecodedHeader;
use compio_h2::proto::ping_pong::PingPong;
use compio_h2::proto::settings::ConnSettings;
use compio_h2::proto::streams::StreamState;

fn connection(is_client: bool, extra: ConnExtra) -> ConnState {
    ConnState::new(
        is_client,
        !is_client,
        ConnSettings::new(),
        PingPong::disabled(),
        None,
        extra,
    )
}

fn server() -> ConnState {
    connection(false, ConnExtra::default())
}

fn client() -> ConnState {
    connection(true, ConnExtra::default())
}

fn field(name: &[u8], value: &[u8]) -> DecodedHeader {
    DecodedHeader {
        name: Bytes::copy_from_slice(name),
        value: Bytes::copy_from_slice(value),
        sensitive: false,
    }
}

fn get_request() -> Vec<DecodedHeader> {
    vec![
        field(b":method", b"GET"),
        field(b":scheme", b"https"),
        field(b":path", b"/"),
    ]
}

fn post_of_length(length: &[u8]) -> Vec<DecodedHeader> {
    vec![
        field(b":method", b"POST"),
        field(b":scheme", b"https"),
        field(b":path", b"/"),
        field(b"content-length", length),
    ]
}

fn id(n: u32) -> StreamId {
    StreamId::new(n)
}

fn headers_frame(n: u32, end_stream: bool) -> Headers {
    let mut h = Headers::new(id(n), Bytes::new());
    if end_stream {
        h.set_end_stream();
    }
    h
}

fn data_frame(n: u32, data: &'static [u8], end_stream: bool) -> Data {
    let mut d = Data::new(id(n), Bytes::from_static(data));
    if end_stream {
        d.set_end_stream();
    }
    d
}

fn written(writer: &mut FrameWriter<()>) -> Vec<(FrameHeader, Vec<u8>)> {
    writer.flush_buf();
    let mut all = Vec::new();
    for chunk in writer.take_ready() {
        all.extend_from_slice(&chunk);
    }
    let mut rest: &[u8] = &all;
    let mut frames = Vec::new();
    while !rest.is_empty() {
        let mut head = [0u8; 9];
        head.copy_from_slice(&rest[..9]);
        let header = FrameHeader::decode(&head);
        let end = 9 + header.length as usize;
        frames.push((header, rest[9..end].to_vec()));
        rest = &rest[end..];
    }
    frames
}

/// A server on which the client has opened stream 1.
fn server_with_stream(fields: Vec<DecodedHeader>) -> (ConnState, FrameWriter<()>) {
    let mut conn = server();
    let mut writer = FrameWriter::new(());
    conn.handle_headers(headers_frame(1, false), Ok(fields), &mut writer)
        .unwrap();
    conn.take_events();
    (conn, writer)
}

/// A client that has opened stream 1.
fn client_with_stream(end_stream: bool) -> (ConnState, FrameWriter<()>) {
    let mut conn = client();
    let mut writer = FrameWriter::new(());
    let job = conn
        .cmd_new_stream(Vec::new(), end_stream, Ticket(1))
        .unwrap();
    conn.cmd_send_headers(job, Bytes::new(), &mut writer);
    conn.take_events();
    written(&mut writer);
    (conn, writer)
}

fn state_of(conn: &ConnState, n: u32) -> StreamState {
    conn.streams.get(&id(n)).unwrap().state
}

#[test]
fn requests_need_their_pseudo_headers() {
    for fields in [
        vec![field(b"host", b"example.com")],
        Vec::new(),
        vec![field(b":method", b"GET"), field(b":path", b"/")],
    ] {
        let mut conn = server();
        let mut writer = FrameWriter::new(());
        let error = conn
            .handle_headers(headers_frame(1, true), Ok(fields), &mut writer)
            .unwrap_err();
        assert!(error.is_connection());
        assert_eq!(error.reason(), Some(Reason::ProtocolError));
        assert!(!conn.streams.contains(&id(1)));
        assert_eq!(conn.last_peer_stream_id.value(), 0);
        assert!(conn.take_events().is_empty());
        assert!(written(&mut writer).is_empty());
    }
    // Trailers have none
    let (mut conn, mut writer) = server_with_stream(get_request());
    let trailers = vec![field(b"x-sum", b"1")];
    conn.handle_headers(headers_frame(1, true), Ok(trailers), &mut writer)
        .unwrap();
    assert!(matches!(conn.take_events()[0], Event::Trailers { .. }));
}

#[test]
fn data_is_passed_on_and_charged() {
    let (mut conn, mut writer) = server_with_stream(get_request());
    conn.handle_data(data_frame(1, b"hello", false), &mut writer)
        .unwrap();
    assert_eq!(conn.conn_recv_flow.window_size(), 65_530);
    assert_eq!(conn.conn_recv_consumed, 5);
    let s = conn.streams.get(&id(1)).unwrap();
    assert_eq!(s.recv_flow.window_size(), 65_530);
    assert_eq!(s.received_data_bytes, 5);
    assert_eq!(s.state, StreamState::Open);
    let events = conn.take_events();
    assert_eq!(events.len(), 1);
    match &events[0] {
        Event::Data { stream_id, data } => {
            assert_eq!(stream_id.value(), 1);
            assert_eq!(data.as_ref(), b"hello");
        }
        _ => panic!("expected data"),
    }
    assert!(written(&mut writer).is_empty());
}

#[test]
fn padding_counts_against_both_windows() {
    let (mut conn, mut writer) = server_with_stream(get_request());
    // One byte that says how much padding there is, the data, and the padding
    let payload = Bytes::from_static(b"\x04hello\0\0\0\0");
    let data = Data::decode(id(1), 0x8, payload).unwrap();
    conn.handle_data(data, &mut writer).unwrap();
    assert_eq!(conn.conn_recv_consumed, 10);
    assert_eq!(conn.conn_recv_flow.window_size(), 65_525);
    let s = conn.streams.get(&id(1)).unwrap();
    assert_eq!(s.recv_flow.window_size(), 65_525);
    assert_eq!(s.received_data_bytes, 5);
}

#[test]
fn last_data_ends_the_remote_half() {
    let (mut conn, mut writer) = server_with_stream(get_request());
    conn.handle_data(data_frame(1, b"x", true), &mut writer)
        .unwrap();
    assert_eq!(state_of(&conn, 1), StreamState::HalfClosedRemote);
    let events = conn.take_events();
    assert_eq!(events.len(), 2);
    assert!(matches!(events[0], Event::Data { .. }));
    assert!(matches!(events[1], Event::RecvClosed { .. }));
    // Nothing more may come
    let error = conn
        .handle_data(data_frame(1, b"y", false), &mut writer)
        .unwrap_err();
    assert!(error.is_reset());
    assert_eq!(error.reason(), Some(Reason::StreamClosed));
}

#[test]
fn more_data_than_announced_is_a_stream_error() {
    let (mut conn, mut writer) = server_with_stream(post_of_length(b"3"));
    let error = conn
        .handle_data(data_frame(1, b"hello", false), &mut writer)
        .unwrap_err();
    assert_eq!(error.stream_id(), Some(1));
    assert_eq!(error.reason(), Some(Reason::ProtocolError));
    assert!(conn.take_events().is_empty());
}

#[test]
fn less_data_than_announced_is_a_stream_error() {
    let (mut conn, mut writer) = server_with_stream(post_of_length(b"10"));
    let error = conn
        .handle_data(data_frame(1, b"hello", true), &mut writer)
        .unwrap_err();
    assert_eq!(error.reason(), Some(Reason::ProtocolError));
    assert_eq!(state_of(&conn, 1), StreamState::Open);
}

#[test]
fn data_of_the_announced_length_is_accepted() {
    let (mut conn, mut writer) = server_with_stream(post_of_length(b"5"));
    conn.handle_data(data_frame(1, b"hel", false), &mut writer)
        .unwrap();
    conn.handle_data(data_frame(1, b"lo", true), &mut writer)
        .unwrap();
    assert_eq!(state_of(&conn, 1), StreamState::HalfClosedRemote);
}

#[test]
fn data_on_an_idle_stream_fails_the_connection() {
    let mut conn = server();
    let mut writer = FrameWriter::new(());
    let error = conn
        .handle_data(data_frame(5, b"hello", false), &mut writer)
        .unwrap_err();
    assert!(error.is_connection());
    assert_eq!(error.reason(), Some(Reason::ProtocolError));
    assert_eq!(conn.conn_recv_consumed, 5);
}

#[test]
fn data_on_a_forgotten_stream_is_answered_with_a_reset() {
    let mut conn = server();
    conn.last_peer_stream_id = id(7);
    let mut writer = FrameWriter::new(());
    conn.handle_data(data_frame(5, b"hello", false), &mut writer)
        .unwrap();
    let frames = written(&mut writer);
    assert_eq!(frames.len(), 1);
    assert_eq!(frames[0].0.kind, 0x3);
    assert_eq!(frames[0].0.stream_id.value(), 5);
    assert_eq!(frames[0].1, vec![0, 0, 0, 5]);
    // The connection's window is charged all the same
    assert_eq!(conn.conn_recv_consumed, 5);
}

#[test]
fn data_beyond_a_window_is_a_flow_control_error() {
    let (mut conn, mut writer) = server_with_stream(get_request());
    conn.streams.get_mut(&id(1)).unwrap().recv_flow = FlowControl::new(4);
    let error = conn
        .handle_data(data_frame(1, b"hello", false), &mut writer)
        .unwrap_err();
    assert_eq!(error.stream_id(), Some(1));
    assert_eq!(error.reason(), Some(Reason::FlowControlError));

    conn.conn_recv_flow = FlowControl::new(4);
    let error = conn
        .handle_data(data_frame(1, b"hello", false), &mut writer)
        .unwrap_err();
    assert!(error.is_connection());
    assert_eq!(error.reason(), Some(Reason::FlowControlError));
}

#[test]
fn stream_errors_reset_only_their_stream() {
    let (mut conn, mut writer) = server_with_stream(post_of_length(b"3"));
    conn.handle_headers(headers_frame(3, false), Ok(get_request()), &mut writer)
        .unwrap();
    conn.take_events();
    conn.handle_frame(
        Frame::Data(data_frame(1, b"hello", false)),
        Ok(Vec::new()),
        0,
        &mut writer,
    )
    .unwrap();
    assert_eq!(state_of(&conn, 1), StreamState::Closed);
    assert_eq!(state_of(&conn, 3), StreamState::Open);
    let frames = written(&mut writer);
    assert_eq!(frames.len(), 1);
    assert_eq!(frames[0].0.kind, 0x3);
    assert_eq!(frames[0].0.stream_id.value(), 1);
    assert_eq!(frames[0].1, vec![0, 0, 0, 1]);
    let events = conn.take_events();
    assert_eq!(events.len(), 1);
    assert!(matches!(events[0], Event::RecvClosed { stream_id } if stream_id.value() == 1));
}

#[test]
fn request_opens_a_stream() {
    let mut conn = server();
    let mut writer = FrameWriter::new(());
    conn.handle_headers(headers_frame(5, false), Ok(get_request()), &mut writer)
        .unwrap();
    assert_eq!(conn.last_peer_stream_id.value(), 5);
    assert_eq!(state_of(&conn, 5), StreamState::Open);
    let s = conn.streams.get(&id(5)).unwrap();
    assert_eq!(s.send_flow.window_size(), 65_535);
    assert_eq!(s.recv_flow.window_size(), 65_535);
    let events = conn.take_events();
    assert_eq!(events.len(), 1);
    match &events[0] {
        Event::Incoming(incoming) => {
            assert_eq!(incoming.stream_id.value(), 5);
            assert_eq!(incoming.headers.len(), 3);
            assert_eq!(incoming.headers[0].value.as_ref(), b"GET");
            assert!(!incoming.recv.with_headers);
        }
        _ => panic!("expected a request"),
    }
    assert!(!conn.streams.contains(&id(1)));
}

#[test]
fn request_without_body_is_half_closed() {
    let mut conn = server();
    let mut writer = FrameWriter::new(());
    conn.handle_headers(headers_frame(1, true), Ok(get_request()), &mut writer)
        .unwrap();
    assert_eq!(state_of(&conn, 1), StreamState::HalfClosedRemote);
    let events = conn.take_events();
    assert!(matches!(events[0], Event::Incoming(_)));
    assert!(matches!(events[1], Event::RecvClosed { .. }));
}

#[test]
fn request_on_an_even_stream_fails_the_connection() {
    let mut conn = server();
    let mut writer = FrameWriter::new(());
    let error = conn
        .handle_headers(headers_frame(2, true), Ok(get_request()), &mut writer)
        .unwrap_err();
    assert!(error.is_connection());
    assert_eq!(error.reason(), Some(Reason::ProtocolError));
}

#[test]
fn requests_are_refused_while_going_away() {
    let mut conn = server();
    let mut writer = FrameWriter::new(());
    conn.going_away = true;
    conn.handle_headers(headers_frame(1, true), Ok(get_request()), &mut writer)
        .unwrap();
    let frames = written(&mut writer);
    assert_eq!(frames[0].0.kind, 0x3);
    assert_eq!(frames[0].1, vec![0, 0, 0, 7]);
    assert!(!conn.streams.contains(&id(1)));
    assert_eq!(conn.last_peer_stream_id.value(), 0);
}

#[test]
fn requests_are_refused_above_the_stream_limit() {
    let mut settings = ConnSettings::new();
    settings.local.max_concurrent_streams = 1;
    let mut conn = ConnState::new(
        false,
        true,
        settings,
        PingPong::disabled(),
        None,
        ConnExtra::default(),
    );
    let mut writer = FrameWriter::new(());
    conn.handle_headers(headers_frame(1, true), Ok(get_request()), &mut writer)
        .unwrap();
    conn.handle_headers(headers_frame(3, true), Ok(get_request()), &mut writer)
        .unwrap();
    assert_eq!(conn.streams.active_count(), 1);
    let frames = written(&mut writer);
    assert_eq!(frames.len(), 1);
    assert_eq!(frames[0].0.stream_id.value(), 3);
    assert_eq!(frames[0].1, vec![0, 0, 0, 7]);
}

#[test]
fn undecodable_headers_are_a_compression_error() {
    let mut conn = server();
    let mut writer = FrameWriter::new(());
    let error = conn
        .handle_frame(
            Frame::Headers(headers_frame(1, true)),
            Err(H2Error::HpackDecode("bad index".to_string())),
            0,
            &mut writer,
        )
        .unwrap_err();
    assert!(error.is_connection());
    assert_eq!(error.reason(), Some(Reason::CompressionError));
    let error = conn
        .handle_frame(
            Frame::Headers(headers_frame(1, true)),
            Err(H2Error::Hpack("table".to_string())),
            0,
            &mut writer,
        )
        .unwrap_err();
    assert_eq!(error.reason(), Some(Reason::CompressionError));
}

#[test]
fn library_errors_become_protocol_errors() {
    let mut conn = server();
    let mut writer = FrameWriter::new(());
    for error in [
        H2Error::Protocol("p".to_string()),
        H2Error::InvalidFrame("f".to_string()),
        H2Error::Frame(FrameError::InvalidPadding("p".to_string())),
    ] {
        let error = conn
            .handle_frame(
                Frame::Headers(headers_frame(1, true)),
                Err(error),
                0,
                &mut writer,
            )
            .unwrap_err();
        assert!(error.is_connection());
        assert_eq!(error.reason(), Some(Reason::ProtocolError));
    }
    // Failures of the transport stay what they are
    let error = conn
        .handle_frame(
            Frame::Headers(headers_frame(1, true)),
            Err(H2Error::Io("broken".to_string())),
            0,
            &mut writer,
        )
        .unwrap_err();
    assert!(error.is_io());
}

#[test]
fn malformed_header_lists_are_refused() {
    let mut conn = server();
    let mut writer = FrameWriter::new(());
    let error = conn
        .handle_headers(
            headers_frame(1, true),
            Ok(vec![field(b":method", b"GET"), field(b":path", b"/")]),
            &mut writer,
        )
        .unwrap_err();
    assert_eq!(
        error.to_string(),
        "connection error: PROTOCOL_ERROR: missing required :scheme"
    );

    let mut fields = get_request();
    fields.push(field(b"Upper", b"x"));
    let error = conn
        .handle_headers(headers_frame(1, true), Ok(fields), &mut writer)
        .unwrap_err();
    assert_eq!(error.to_string(), "stream 1 error: PROTOCOL_ERROR");
    assert!(!conn.streams.contains(&id(1)));
}

#[test]
fn trailers_end_a_request() {
    let (mut conn, mut writer) = server_with_stream(get_request());
    conn.handle_headers(
        headers_frame(1, true),
        Ok(vec![field(b"x-checksum", b"42")]),
        &mut writer,
    )
    .unwrap();
    assert_eq!(state_of(&conn, 1), StreamState::HalfClosedRemote);
    let events = conn.take_events();
    match &events[0] {
        Event::Trailers {
            stream_id,
            trailers,
        } => {
            assert_eq!(stream_id.value(), 1);
            assert_eq!(trailers.get("x-checksum").unwrap().as_bytes(), b"42");
            assert_eq!(trailers.len(), 1);
        }
        _ => panic!("expected trailers"),
    }
    assert!(matches!(events[1], Event::RecvClosed { .. }));
}

#[test]
fn trailers_must_end_the_stream() {
    let (mut conn, mut writer) = server_with_stream(get_request());
    let error = conn
        .handle_headers(
            headers_frame(1, false),
            Ok(vec![field(b"x-checksum", b"42")]),
            &mut writer,
        )
        .unwrap_err();
    assert_eq!(error.stream_id(), Some(1));
    assert_eq!(error.reason(), Some(Reason::ProtocolError));

    let (mut conn, mut writer) = client_with_stream(true);
    let error = conn
        .handle_headers(
            headers_frame(1, false),
            Ok(vec![field(b"x-checksum", b"42")]),
            &mut writer,
        )
        .unwrap_err();
    assert_eq!(error.reason(), Some(Reason::ProtocolError));
}

#[test]
fn response_headers_reach_the_application() {
    let (mut conn, mut writer) = client_with_stream(true);
    conn.handle_headers(
        headers_frame(1, false),
        Ok(vec![
            field(b":status", b"404"),
            field(b"set-cookie", b"a=1"),
            field(b"content-length", b"5"),
            field(b"set-cookie", b"b=2"),
            field(b"bad value", b"x"),
            field(b"bad", b"\x00"),
        ]),
        &mut writer,
    )
    .unwrap();
    assert_eq!(
        conn.streams.get(&id(1)).unwrap().expected_content_length,
        Some(5)
    );
    let events = conn.take_events();
    assert_eq!(events.len(), 1);
    match &events[0] {
        Event::Response {
            stream_id,
            status,
            headers,
        } => {
            assert_eq!(stream_id.value(), 1);
            assert_eq!(*status, 404);
            let cookies: Vec<&[u8]> = headers
                .get_all("set-cookie")
                .iter()
                .map(|v| v.as_bytes())
                .collect();
            assert_eq!(cookies, vec![&b"a=1"[..], &b"b=2"[..]]);
            assert_eq!(headers.len(), 3);
        }
        _ => panic!("expected a response"),
    }
}

#[test]
fn response_status_falls_back_to_ok() {
    for (value, status) in [
        (&b"204"[..], 204u16),
        (&b"600"[..], 600),
        (&b"abc"[..], 200),
        (&b"99"[..], 200),
        (&b"70000"[..], 200),
    ] {
        let (mut conn, mut writer) = client_with_stream(true);
        conn.handle_headers(
            headers_frame(1, false),
            Ok(vec![field(b":status", value)]),
            &mut writer,
        )
        .unwrap();
        let events = conn.take_events();
        match &events[0] {
            Event::Response { status: s, .. } => assert_eq!(*s, status),
            _ => panic!("expected a response"),
        }
    }
}

#[test]
fn response_trailers_close_the_stream() {
    let (mut conn, mut writer) = client_with_stream(true);
    conn.handle_headers(
        headers_frame(1, true),
        Ok(vec![field(b"grpc-status", b"0")]),
        &mut writer,
    )
    .unwrap();
    assert_eq!(state_of(&conn, 1), StreamState::Closed);
    assert!(matches!(conn.take_events()[0], Event::Trailers { .. }));
    // Headers after the end are a stream error
    let error = conn
        .handle_headers(
            headers_frame(1, true),
            Ok(vec![field(b":status", b"200")]),
            &mut writer,
        )
        .unwrap_err();
    assert_eq!(error.reason(), Some(Reason::StreamClosed));
}

#[test]
fn response_on_an_unknown_stream_is_ignored() {
    let mut conn = client();
    let mut writer = FrameWriter::new(());
    conn.handle_headers(
        headers_frame(9, true),
        Ok(vec![field(b":status", b"200")]),
        &mut writer,
    )
    .unwrap();
    assert!(conn.take_events().is_empty());
    assert!(written(&mut writer).is_empty());
}

#[test]
fn reset_by_the_peer_tells_everybody() {
    let (mut conn, _) = server_with_stream(get_request());
    conn.handle_rst_stream(RstStream::new(id(1), Reason::Cancel), 0)
        .unwrap();
    assert_eq!(state_of(&conn, 1), StreamState::Closed);
    let events = conn.take_events();
    assert_eq!(events.len(), 4);
    match &events[0] {
        Event::DataError { error, .. } => {
            assert!(error.is_remote());
            assert_eq!(error.to_string(), "stream 1 reset by peer: CANCEL");
        }
        _ => panic!("expected the end of the data"),
    }
    assert!(matches!(events[1], Event::TrailersError { .. }));
    assert!(matches!(
        events[2],
        Event::Reset {
            reason: Reason::Cancel,
            ..
        }
    ));
    assert!(matches!(events[3], Event::RecvClosed { .. }));
    // A second reset has nobody left to tell but the readers' end
    conn.handle_rst_stream(RstStream::new(id(1), Reason::Cancel), 0)
        .unwrap();
    assert_eq!(conn.take_events().len(), 1);
}

#[test]
fn reset_of_an_unknown_stream() {
    let mut conn = server();
    let error = conn
        .handle_rst_stream(RstStream::new(id(1), Reason::Cancel), 0)
        .unwrap_err();
    assert!(error.is_connection());
    assert_eq!(error.reason(), Some(Reason::ProtocolError));
    conn.last_peer_stream_id = id(1);
    conn.handle_rst_stream(RstStream::new(id(1), Reason::Cancel), 0)
        .unwrap();
}

#[test]
fn rapid_resets_end_the_connection() {
    let extra = ConnExtra {
        max_concurrent_reset_streams: Some(2),
        reset_stream_duration: Some(100),
        max_send_buffer_size: None,
    };
    let mut conn = connection(false, extra);
    let mut writer = FrameWriter::new(());
    for n in [1u32, 3, 5, 7, 9] {
        conn.handle_headers(headers_frame(n, false), Ok(get_request()), &mut writer)
            .unwrap();
    }
    conn.handle_rst_stream(RstStream::new(id(1), Reason::Cancel), 0)
        .unwrap();
    conn.handle_rst_stream(RstStream::new(id(3), Reason::Cancel), 50)
        .unwrap();
    // The first one is forgotten by now
    conn.handle_rst_stream(RstStream::new(id(5), Reason::Cancel), 101)
        .unwrap();
    let error = conn
        .handle_rst_stream(RstStream::new(id(7), Reason::Cancel), 102)
        .unwrap_err();
    assert!(error.is_connection());
    assert_eq!(error.reason(), Some(Reason::EnhanceYourCalm));
    assert!(!conn.going_away);
    assert_eq!(state_of(&conn, 9), StreamState::Open);
}

fn settings(max_streams: Option<u32>, window: Option<u32>) -> Settings {
    Settings::with_values(SettingsView {
        ack: false,
        header_table_size: None,
        enable_push: None,
        max_concurrent_streams: max_streams,
        initial_window_size: window,
        max_frame_size: None,
        max_header_list_size: None,
    })
    .unwrap()
}

#[test]
fn settings_are_acknowledged() {
    let (mut conn, mut writer) = client_with_stream(false);
    conn.handle_settings(settings(Some(1), Some(100)), &mut writer)
        .unwrap();
    let frames = written(&mut writer);
    assert_eq!(frames.len(), 1);
    assert_eq!(frames[0].0.kind, 0x4);
    assert_eq!(frames[0].0.flags, 0x1);
    assert!(frames[0].1.is_empty());
    assert_eq!(conn.settings.remote().initial_window_size, 100);
    // The open stream's window moves by the difference
    assert_eq!(
        conn.streams.get(&id(1)).unwrap().send_flow.window_size(),
        100
    );
    // The client may open no more streams than the peer allows
    assert!(!conn.streams.can_accept_stream());
    let error = conn
        .cmd_new_stream(Vec::new(), true, Ticket(2))
        .unwrap_err();
    assert_eq!(error.reason(), Some(Reason::RefusedStream));
}

#[test]
fn settings_of_a_client_do_not_limit_its_requests() {
    let mut conn = server();
    let mut writer = FrameWriter::new(());
    conn.handle_settings(settings(Some(0), None), &mut writer)
        .unwrap();
    assert!(conn.streams.can_accept_stream());
}

#[test]
fn settings_that_overflow_a_window_fail_the_connection() {
    let (mut conn, mut writer) = client_with_stream(false);
    conn.handle_window_update(WindowUpdate::new(id(1), 0x7fff_0000))
        .unwrap();
    let error = conn
        .handle_settings(settings(None, Some(0x7fff_ffff)), &mut writer)
        .unwrap_err();
    assert!(error.is_connection());
    assert_eq!(error.reason(), Some(Reason::FlowControlError));
    assert!(written(&mut writer).is_empty());
}

#[test]
fn queued_settings_follow_the_acknowledgement() {
    let mut conn = server();
    let mut writer = FrameWriter::new(());
    conn.cmd_set_initial_window_size(100, &mut writer).unwrap();
    conn.cmd_set_initial_window_size(200, &mut writer).unwrap();
    let frames = written(&mut writer);
    assert_eq!(frames.len(), 1);
    assert_eq!(frames[0].1, vec![0, 4, 0, 0, 0, 100]);
    conn.handle_settings(Settings::ack(), &mut writer).unwrap();
    let frames = written(&mut writer);
    assert_eq!(frames.len(), 1);
    assert_eq!(frames[0].1, vec![0, 4, 0, 0, 0, 200]);
    conn.handle_settings(Settings::ack(), &mut writer).unwrap();
    assert!(written(&mut writer).is_empty());
}

#[test]
fn ping_is_answered_with_its_bytes() {
    let mut conn = server();
    let mut writer = FrameWriter::new(());
    conn.handle_ping(Ping::new([1, 2, 3, 4, 5, 6, 7, 8]), &mut writer);
    let frames = written(&mut writer);
    assert_eq!(frames.len(), 1);
    assert_eq!(frames[0].0.kind, 0x6);
    assert_eq!(frames[0].0.flags, 0x1);
    assert_eq!(frames[0].1, vec![1, 2, 3, 4, 5, 6, 7, 8]);
}

#[test]
fn pong_settles_only_its_own_ping() {
    let mut conn = server();
    let mut writer = FrameWriter::new(());
    conn.ping_pong.ping_sent([1; 8]);
    conn.handle_ping(Ping::pong([2; 8]), &mut writer);
    assert!(conn.ping_pong.is_waiting());
    conn.handle_ping(Ping::pong([1; 8]), &mut writer);
    assert!(!conn.ping_pong.is_waiting());
    assert!(written(&mut writer).is_empty());
}

#[test]
fn goaway_closes_what_the_peer_will_not_process() {
    let mut conn = client();
    let mut writer = FrameWriter::new(());
    for t in 0..3u64 {
        let job = conn.cmd_new_stream(Vec::new(), false, Ticket(t)).unwrap();
        conn.cmd_send_headers(job, Bytes::new(), &mut writer);
    }
    conn.ready_waiters.push(Ticket(10));
    conn.take_events();
    conn.handle_goaway(GoAway::with_debug_data(
        id(1),
        Reason::EnhanceYourCalm,
        Bytes::from_static(b"why"),
    ));
    assert!(conn.going_away);
    assert_eq!(state_of(&conn, 1), StreamState::Open);
    assert_eq!(state_of(&conn, 3), StreamState::Closed);
    assert_eq!(state_of(&conn, 5), StreamState::Closed);
    let events = conn.take_events();
    assert_eq!(events.len(), 7);
    match &events[0] {
        Event::DataError { stream_id, error } => {
            assert_eq!(stream_id.value(), 3);
            assert!(error.is_go_away());
            match error {
                H2Error::GoAway {
                    last_stream_id,
                    debug_data,
                    ..
                } => {
                    assert_eq!(*last_stream_id, 1);
                    assert_eq!(debug_data.as_ref(), b"why");
                }
                _ => unreachable!(),
            }
        }
        _ => panic!("expected the end of the data"),
    }
    assert!(matches!(
        events[1],
        Event::Reset {
            reason: Reason::EnhanceYourCalm,
            ..
        }
    ));
    assert!(matches!(events[2], Event::RecvClosed { .. }));
    match &events[6] {
        Event::Done { ticket, result } => {
            assert_eq!(*ticket, Ticket(10));
            assert_eq!(
                result.as_ref().unwrap_err().reason(),
                Some(Reason::RefusedStream)
            );
        }
        _ => panic!("expected the waiter to be told"),
    }
    assert!(conn.ready_waiters.is_empty());
}

#[test]
fn window_updates_let_windows_grow() {
    let (mut conn, _) = client_with_stream(false);
    conn.handle_window_update(WindowUpdate::new(StreamId::zero(), 10))
        .unwrap();
    assert_eq!(conn.conn_send_flow.window_size(), 65_545);
    conn.handle_window_update(WindowUpdate::new(id(1), 20))
        .unwrap();
    assert_eq!(
        conn.streams.get(&id(1)).unwrap().send_flow.window_size(),
        65_555
    );
}

#[test]
fn window_updates_beyond_the_largest_window() {
    let (mut conn, _) = client_with_stream(false);
    let error = conn
        .handle_window_update(WindowUpdate::new(StreamId::zero(), 0x7fff_ffff))
        .unwrap_err();
    assert!(error.is_connection());
    assert_eq!(error.reason(), Some(Reason::FlowControlError));
    assert_eq!(conn.conn_send_flow.window_size(), 65_535);
    let error = conn
        .handle_window_update(WindowUpdate::new(id(1), 0x7fff_ffff))
        .unwrap_err();
    assert_eq!(error.stream_id(), Some(1));
    assert_eq!(error.reason(), Some(Reason::FlowControlError));
}

#[test]
fn window_updates_for_unknown_streams() {
    let mut conn = client();
    // Streams of this end are forgotten, streams of the peer are idle
    conn.handle_window_update(WindowUpdate::new(id(3), 1))
        .unwrap();
    let error = conn
        .handle_window_update(WindowUpdate::new(id(2), 1))
        .unwrap_err();
    assert_eq!(error.reason(), Some(Reason::ProtocolError));
}

#[test]
fn priority_is_ignored_and_stray_continuation_is_not() {
    let mut conn = server();
    let mut writer = FrameWriter::new(());
    conn.handle_frame(
        Frame::Priority(Priority::new(id(1), false, id(3), 16)),
        Ok(Vec::new()),
        0,
        &mut writer,
    )
    .unwrap();
    let error = conn
        .handle_frame(
            Frame::Continuation(Continuation::new(id(1), Bytes::new())),
            Ok(Vec::new()),
            0,
            &mut writer,
        )
        .unwrap_err();
    assert!(error.is_connection());
    assert_eq!(error.reason(), Some(Reason::ProtocolError));
    assert!(written(&mut writer).is_empty());
    assert!(conn.take_events().is_empty());
}
