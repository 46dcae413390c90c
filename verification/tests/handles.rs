//! The handles of clients, servers and streams, and the small parts they are made of.

use bytes::Bytes;
use compio_h2::error::{FrameError, H2Error, Reason};
use compio_h2::frame::{
    Settings, SettingsView, StreamId, DEFAULT_MAX_FRAME_SIZE, LARGEST_MAX_FRAME_SIZE,
};
use compio_h2::proto::connection::{Command, ConnExtra, IncomingStream, InternalMsg};
use compio_h2::proto::events::Ticket;
use compio_h2::proto::flow_control::FlowControl;
use compio_h2::proto::headers::{has_no_pseudo_headers, DecodedHeader};
use compio_h2::proto::header_map::{fits_header_map, headers_to_header_map, response_status};
use compio_h2::proto::settings::{ConnSettings, SettingValues, SyncState};
use compio_h2::proto::streams::{StreamRecv, StreamState, StreamStore};
use compio_h2::server::{make_uri, ResponseHead, ServerConnection};
use compio_h2::share::{take_reply, undelivered, RecvFlowControl, RecvStream, SendStream};
use compio_h2::{buf, client, server, text};
use http::{HeaderMap, HeaderValue};

fn id(n: u32) -> StreamId {
    StreamId::new(n)
}

fn field(name: &[u8], value: &[u8]) -> DecodedHeader {
    DecodedHeader {
        name: Bytes::copy_from_slice(name),
        value: Bytes::copy_from_slice(value),
        sensitive: false,
    }
}

fn incoming(headers: Vec<DecodedHeader>) -> IncomingStream {
    IncomingStream {
        stream_id: id(7),
        headers,
        recv: StreamRecv {
            stream_id: id(7),
            with_headers: false,
        },
    }
}

#[test]
fn received_bytes_can_be_released_once() {
    let mut flow = RecvFlowControl::new(id(3));
    assert_eq!(flow.unreleased(), 0);
    flow.add_unreleased(100);
    match flow.release_capacity(60).unwrap() {
        InternalMsg::ReleaseCapacity { stream_id, amount } => {
            assert_eq!(stream_id.value(), 3);
            assert_eq!(amount, 60);
        }
        _ => panic!("expected a release"),
    }
    assert_eq!(flow.unreleased(), 40);
    assert_eq!(
        flow.release_capacity(41).unwrap_err().to_string(),
        "protocol error: release_capacity(41) exceeds unreleased bytes (40)"
    );
    assert_eq!(flow.unreleased(), 40);
    assert!(flow.release_capacity(40).is_ok());
    assert_eq!(flow.unreleased(), 0);
}

#[test]
fn huge_releases_are_refused() {
    let mut flow = RecvFlowControl::new(id(3));
    let error = flow.release_capacity(0x1_0000_0000).unwrap_err();
    assert_eq!(
        error.to_string(),
        "protocol error: release_capacity(4294967296) exceeds unreleased bytes (0)"
    );
}

#[test]
fn reading_data_counts_it_as_unreleased() {
    let mut stream = RecvStream::new(id(3));
    assert_eq!(stream.stream_id().value(), 3);
    let data = stream
        .data(Some(Ok(Bytes::from_static(b"hello"))))
        .unwrap()
        .unwrap();
    assert_eq!(data.as_ref(), b"hello");
    assert_eq!(stream.flow_control().unreleased(), 5);
    stream.flow_control().release_capacity(5).unwrap();
    assert_eq!(stream.flow_control().unreleased(), 0);
    let error = stream.data(Some(Err(H2Error::stream(3, Reason::Cancel))));
    assert!(error.unwrap().is_err());
    assert!(stream.data(None).is_none());
    assert_eq!(stream.flow_control().unreleased(), 0);
}

#[test]
fn reservations_are_not_additive() {
    let mut stream = SendStream::new(id(5));
    match stream.reserve_capacity(100, Ticket(1)).unwrap() {
        Command::ReserveCapacity {
            stream_id,
            amount,
            response_tx,
        } => {
            assert_eq!(stream_id.value(), 5);
            assert_eq!(amount, 100);
            assert_eq!(response_tx, Ticket(1));
        }
        _ => panic!("expected a reservation"),
    }
    stream.capacity_reserved(Some(Ok(100))).unwrap();
    assert_eq!(stream.capacity(), 100);
    match stream.reserve_capacity(200, Ticket(2)).unwrap() {
        Command::ReserveCapacity { amount, .. } => assert_eq!(amount, 100),
        _ => panic!("expected a reservation"),
    }
    stream.capacity_reserved(Some(Ok(30))).unwrap();
    assert_eq!(stream.capacity(), 130);
    assert!(stream.reserve_capacity(130, Ticket(3)).is_none());
    assert_eq!(
        stream.capacity_reserved(None).unwrap_err().to_string(),
        "protocol error: connection closed during reserve_capacity"
    );
    assert_eq!(stream.capacity(), 130);
}

#[test]
fn large_reservations_are_not_cut_off() {
    let stream = SendStream::new(id(5));
    for sz in [u32::MAX as usize, 1usize << 32, usize::MAX] {
        match stream.reserve_capacity(sz, Ticket(1)).unwrap() {
            Command::ReserveCapacity { amount, .. } => assert_eq!(amount, u32::MAX),
            _ => panic!("expected a reservation"),
        }
    }
    assert!(stream.reserve_capacity(0, Ticket(1)).is_none());
}

#[test]
fn long_header_lists_fit_if_names_repeat() {
    let field = |name: String| DecodedHeader {
        name: Bytes::from(name),
        value: Bytes::from_static(b"v"),
        sensitive: false,
    };
    let repeated: Vec<DecodedHeader> = (0..7000)
        .map(|i| field(format!("x-{}", i % 10)))
        .collect();
    assert!(fits_header_map(&repeated));
    assert_eq!(headers_to_header_map(&repeated).len(), 7000);
    let distinct: Vec<DecodedHeader> = (0..6554).map(|i| field(format!("x-{}", i))).collect();
    assert!(!fits_header_map(&distinct));
    assert!(fits_header_map(&distinct[1..]));
}

#[test]
fn sending_uses_up_the_reservation() {
    let mut stream = SendStream::new(id(5));
    stream.capacity_reserved(Some(Ok(10))).unwrap();
    match stream.send_data(Bytes::from_static(b"hello"), true, Ticket(1)) {
        Command::SendData {
            stream_id,
            data,
            end_stream,
            ..
        } => {
            assert_eq!(stream_id.value(), 5);
            assert_eq!(data.as_ref(), b"hello");
            assert!(end_stream);
        }
        _ => panic!("expected data"),
    }
    assert_eq!(stream.capacity(), 5);
    stream.send_data(Bytes::from_static(b"hello world"), false, Ticket(2));
    assert_eq!(stream.capacity(), 0);
}

#[test]
fn polled_capacity() {
    let mut stream = SendStream::new(id(5));
    match stream.poll_capacity(Ticket(1)).unwrap() {
        Command::ReserveCapacity { amount, .. } => assert_eq!(amount, u32::MAX),
        _ => panic!("expected a reservation"),
    }
    assert_eq!(
        stream.capacity_polled(Some(Ok(7)), false).unwrap().unwrap(),
        7
    );
    assert!(stream.poll_capacity(Ticket(2)).is_none());
    assert!(stream.capacity_polled(None, false).is_none());
    let refused = || Some(Err(H2Error::Protocol("stream not found".to_string())));
    assert!(stream.capacity_polled(refused(), false).unwrap().is_err());
    // A stream that was reset has no capacity any more
    assert!(stream.capacity_polled(refused(), true).is_none());
    // Nor has one that ended in a reset before it was forgotten
    stream.stream_gone(false);
    assert!(stream.capacity_polled(refused(), false).unwrap().is_err());
    stream.stream_gone(true);
    assert!(stream.capacity_polled(refused(), false).is_none());
    stream.stream_gone(false);
    assert!(stream.capacity_polled(refused(), false).is_none());
    assert_eq!(stream.capacity(), 7);
}

#[test]
fn odd_names_and_values_are_sent_and_then_left_out() {
    // A long name that is given as a literal is not checked: what is no name byte is
    // replaced by a zero
    let mut map = HeaderMap::new();
    map.insert(
        "x-a name of seventy bytes--------------------------------------------x",
        HeaderValue::from_static("1"),
    );
    let name = map.keys().next().unwrap().clone();
    assert_eq!(name.as_str().len(), 70);
    assert_eq!(name.as_str().as_bytes()[3], 0);
    map.insert("x-name", HeaderValue::from(name));
    map.insert("x-plain", HeaderValue::from_static("2"));
    let mut stream = SendStream::new(id(5));
    let sent: Vec<DecodedHeader> = match stream.send_trailers(&map, Ticket(1)) {
        Command::SendTrailers { trailers, .. } => trailers
            .iter()
            .map(|(name, value)| field(name, value))
            .collect(),
        _ => panic!("expected trailers"),
    };
    assert_eq!(sent.len(), 3);
    assert_eq!(sent.iter().filter(|h| h.name.contains(&0)).count(), 1);
    assert_eq!(sent.iter().filter(|h| h.value.contains(&0)).count(), 1);
    let arrived = headers_to_header_map(&sent);
    assert_eq!(arrived.len(), 1);
    assert_eq!(arrived["x-plain"], "2");
}

#[test]
fn resets_and_trailers_are_commands() {
    let mut stream = SendStream::new(id(5));
    assert_eq!(stream.stream_id().value(), 5);
    match stream.send_reset(Reason::Cancel, Ticket(1)) {
        Command::SendReset {
            stream_id, reason, ..
        } => {
            assert_eq!(stream_id.value(), 5);
            assert_eq!(reason, Reason::Cancel);
        }
        _ => panic!("expected a reset"),
    }
    let trailers = map_of(&[("a", "1"), ("b", "2"), ("a", "3")]);
    match stream.send_trailers(&trailers, Ticket(2)) {
        Command::SendTrailers {
            trailers,
            response_tx,
            ..
        } => {
            assert_eq!(trailers.len(), 3);
            let values: Vec<&[u8]> = trailers
                .iter()
                .filter(|(k, _)| k.as_ref() == b"a")
                .map(|(_, v)| v.as_ref())
                .collect();
            assert_eq!(values, vec![&b"1"[..], &b"3"[..]]);
            assert_eq!(response_tx, Ticket(2));
        }
        _ => panic!("expected trailers"),
    }
}

#[test]
fn replies_that_never_come() {
    assert_eq!(take_reply(Some(Ok(3u32)), "gone").unwrap(), 3);
    assert_eq!(
        take_reply::<u32>(None, "connection closed during send_data")
            .unwrap_err()
            .to_string(),
        "protocol error: connection closed during send_data"
    );
    let stream = SendStream::new(id(5));
    assert_eq!(
        stream.poll_reset(Some(Reason::Cancel)).unwrap(),
        Reason::Cancel
    );
    assert_eq!(
        stream.poll_reset(None).unwrap_err().to_string(),
        "protocol error: stream closed without reset"
    );
    assert!(stream.data_sent(Some(Ok(()))).is_ok());
    for (result, what) in [
        (stream.data_sent(None), "send_data"),
        (stream.reset_sent(None), "send_reset"),
        (stream.trailers_sent(None), "send_trailers"),
    ] {
        assert_eq!(
            result.unwrap_err().to_string(),
            format!("protocol error: connection closed during {}", what)
        );
    }
    for result in [
        client::SendRequest.answered(None),
        ServerConnection.answered(None),
    ] {
        assert_eq!(
            result.unwrap_err().to_string(),
            "protocol error: connection closed"
        );
    }
    assert_eq!(
        ServerConnection.closed(None).unwrap_err().to_string(),
        "protocol error: connection task dropped"
    );
    assert_eq!(undelivered().reason(), Some(Reason::InternalError));
}

fn head(
    scheme: Option<&str>,
    path: Option<&str>,
    authority: Option<&str>,
) -> client::RequestHead {
    client::RequestHead {
        method: "POST".to_string(),
        scheme: scheme.map(|s| s.to_string()),
        path_and_query: path.map(|s| s.to_string()),
        authority: authority.map(|s| s.to_string()),
        headers: map_of(&[("accept", "*/*")]),
    }
}

fn map_of(fields: &[(&'static str, &'static str)]) -> HeaderMap {
    let mut map = HeaderMap::new();
    for (name, value) in fields {
        map.append(*name, HeaderValue::from_static(value));
    }
    map
}

fn sent_fields(c: Command) -> Vec<(Vec<u8>, Vec<u8>)> {
    match c {
        Command::NewStream { headers, .. } | Command::SendHeaders { headers, .. } => headers
            .iter()
            .map(|(k, v)| (k.to_vec(), v.to_vec()))
            .collect(),
        _ => panic!("expected headers"),
    }
}

#[test]
fn request_fields() {
    let handle = client::SendRequest;
    let fields = sent_fields(handle.send_request(
        head(Some("http"), Some("/a?b"), Some("example.com")),
        true,
        Ticket(1),
    ));
    let expected: Vec<(Vec<u8>, Vec<u8>)> = vec![
        (b":method".to_vec(), b"POST".to_vec()),
        (b":scheme".to_vec(), b"http".to_vec()),
        (b":path".to_vec(), b"/a?b".to_vec()),
        (b":authority".to_vec(), b"example.com".to_vec()),
        (b"accept".to_vec(), b"*/*".to_vec()),
    ];
    assert_eq!(fields, expected);

    let fields = sent_fields(handle.send_request(head(None, None, None), true, Ticket(1)));
    let expected: Vec<(Vec<u8>, Vec<u8>)> = vec![
        (b":method".to_vec(), b"POST".to_vec()),
        (b":scheme".to_vec(), b"https".to_vec()),
        (b":path".to_vec(), b"/".to_vec()),
        (b"accept".to_vec(), b"*/*".to_vec()),
    ];
    assert_eq!(fields, expected);
}

#[test]
fn fields_are_sent_in_the_given_order() {
    let regular = || {
        vec![
            (Bytes::from_static(b"b"), Bytes::from_static(b"1")),
            (Bytes::from_static(b"a"), Bytes::from_static(b"2")),
        ]
    };
    let fields = sent_fields(client::SendRequest.send_fields(
        head(None, None, None),
        regular(),
        true,
        Ticket(1),
    ));
    assert_eq!(fields.len(), 5);
    assert_eq!(fields[3].0, b"b");
    assert_eq!(fields[4].0, b"a");

    let (_, handle) = ServerConnection
        .build_request(incoming(Vec::new()))
        .unwrap();
    let response = ResponseHead {
        status: 404,
        headers: HeaderMap::new(),
    };
    let fields = sent_fields(handle.send_fields(response, regular(), true, Ticket(1)));
    assert_eq!(fields.len(), 3);
    assert_eq!(fields[0].1, b"404");
    assert_eq!(fields[2].1, b"2");
}

#[test]
fn header_maps_arrive_as_they_were_sent() {
    let map = map_of(&[("x", "1"), ("y", "2"), ("x", "3"), ("z", "")]);
    let mut stream = SendStream::new(id(5));
    let received: Vec<DecodedHeader> = match stream.send_trailers(&map, Ticket(1)) {
        Command::SendTrailers { trailers, .. } => {
            trailers.iter().map(|(k, v)| field(k, v)).collect()
        }
        _ => panic!("expected trailers"),
    };
    assert_eq!(headers_to_header_map(&received), map);
}

#[test]
fn client_commands() {
    let handle = client::SendRequest;
    assert!(matches!(
        handle.ready(Ticket(1)),
        Command::PollReady {
            response_tx: Ticket(1)
        }
    ));
    assert!(matches!(
        handle.shutdown(Ticket(2)),
        Command::GoAway {
            response_tx: Ticket(2)
        }
    ));
    assert!(matches!(
        handle.set_target_window_size(9, Ticket(3)),
        Command::SetTargetWindowSize { size: 9, .. }
    ));
    assert!(matches!(
        handle.set_initial_window_size(8, Ticket(4)),
        Command::SetInitialWindowSize { size: 8, .. }
    ));
}

#[test]
fn request_that_was_sent() {
    let handle = client::SendRequest;
    let recv = StreamRecv {
        stream_id: id(3),
        with_headers: true,
    };
    let (future, body) = handle
        .request_sent(Some(Ok((id(3), recv))), false)
        .unwrap();
    assert!(future.awaits_headers());
    assert_eq!(body.unwrap().stream_id().value(), 3);
    let (_, body) = handle.request_sent(Some(Ok((id(3), recv))), true).unwrap();
    assert!(body.is_none());
    assert_eq!(
        handle.request_sent(None, true).unwrap_err().to_string(),
        "protocol error: connection closed"
    );
    let refused = handle
        .request_sent(Some(Err(H2Error::connection(Reason::RefusedStream))), true)
        .unwrap_err();
    assert_eq!(refused.reason(), Some(Reason::RefusedStream));
}

#[test]
fn awaited_responses() {
    let recv = StreamRecv {
        stream_id: id(3),
        with_headers: true,
    };
    let map = headers_to_header_map(&[field(b"a", b"1")]);
    let response = client::ResponseFuture::new(id(3), Some(recv))
        .await_response(Some(Ok((404, map))))
        .unwrap();
    assert_eq!(response.status, 404);
    assert_eq!(response.headers.get("a").unwrap().as_bytes(), b"1");
    assert_eq!(response.body.stream_id().value(), 3);

    let error = client::ResponseFuture::new(id(3), Some(recv))
        .await_response(None)
        .unwrap_err();
    assert_eq!(
        error.to_string(),
        "protocol error: connection closed before response"
    );
    let error = client::ResponseFuture::new(id(3), None)
        .await_response(None)
        .unwrap_err();
    assert_eq!(
        error.to_string(),
        "protocol error: response already consumed"
    );
    // A stream without response headers stands for an empty response
    let plain = StreamRecv {
        stream_id: id(3),
        with_headers: false,
    };
    let response = client::ResponseFuture::new(id(3), Some(plain))
        .await_response(None)
        .unwrap();
    assert_eq!(response.status, 200);
    assert!(response.headers.is_empty());
}

#[test]
fn requests_are_put_together() {
    let (request, handle) = ServerConnection
        .build_request(incoming(vec![
            field(b":method", b"PUT"),
            field(b":scheme", b"http"),
            field(b":authority", b"example.com"),
            field(b":path", b"/a?b"),
            field(b"accept", b"*/*"),
            field(b"accept", b"text/html"),
        ]))
        .unwrap();
    assert_eq!(request.method, "PUT");
    assert_eq!(request.uri, "http://example.com/a?b");
    assert_eq!(request.headers.get_all("accept").iter().count(), 2);
    assert_eq!(request.body.stream_id().value(), 7);
    assert_eq!(handle.stream_id().value(), 7);
}

#[test]
fn accepted_requests() {
    let fields = vec![field(b":method", b"PUT")];
    let (request, handle) = ServerConnection
        .accept(Some(Ok(incoming(fields))))
        .unwrap()
        .unwrap();
    assert_eq!(request.method, "PUT");
    assert_eq!(
        handle.poll_reset(Some(Reason::Cancel)).unwrap(),
        Reason::Cancel
    );
    assert!(handle.poll_reset(None).is_err());
    let error = ServerConnection
        .accept(Some(Err(H2Error::connection(Reason::InternalError))))
        .unwrap()
        .unwrap_err();
    assert!(error.is_connection());
    assert!(ServerConnection.accept(None).is_none());
}

#[test]
fn requests_have_defaults() {
    let (request, _) = ServerConnection
        .build_request(incoming(Vec::new()))
        .unwrap();
    assert_eq!(request.method, "GET");
    assert_eq!(request.uri, "/");
    assert!(request.headers.is_empty());
    let (request, _) = ServerConnection
        .build_request(incoming(vec![field(b":authority", b"example.com")]))
        .unwrap();
    assert_eq!(request.uri, "https://example.com/");
}

#[test]
fn requests_with_faults() {
    let error = ServerConnection
        .build_request(incoming(vec![field(b":method", b"NO SPACES")]))
        .unwrap_err();
    assert_eq!(
        error.to_string(),
        "protocol error: invalid method: invalid HTTP method"
    );
    let error = ServerConnection
        .build_request(incoming(vec![field(b":path", b"/ /")]))
        .unwrap_err();
    assert_eq!(
        error.to_string(),
        "protocol error: invalid URI: invalid uri character"
    );
    let error = ServerConnection
        .request_with_uri(
            incoming(Vec::new()),
            "/x".to_string(),
            Some("odd".to_string()),
        )
        .unwrap_err();
    assert_eq!(error.to_string(), "protocol error: invalid URI: odd");
    let (request, _) = ServerConnection
        .request_with_uri(incoming(Vec::new()), "/x".to_string(), None)
        .unwrap();
    assert_eq!(request.uri, "/x");
}

#[test]
fn text_that_is_no_text_is_replaced() {
    // The replacement character is no part of a valid authority
    let error = ServerConnection
        .build_request(incoming(vec![field(b":authority", b"ex\xff")]))
        .unwrap_err();
    assert!(error
        .to_string()
        .starts_with("protocol error: invalid URI: "));
    let (request, _) = ServerConnection
        .build_request(incoming(vec![field(b":path", b"/caf\xc3\xa9")]))
        .unwrap();
    assert_eq!(request.uri, "/caf\u{e9}");
}

#[test]
fn uri_texts() {
    let s = |t: &str| Some(t.to_string());
    assert_eq!(make_uri(s("ftp"), s("h"), s("/p")), "ftp://h/p");
    assert_eq!(make_uri(None, s("h"), None), "https://h/");
    assert_eq!(make_uri(s("ftp"), None, s("/p")), "/p");
    assert_eq!(make_uri(None, None, None), "/");
}

#[test]
fn requests_arrive_as_they_were_sent() {
    let fields = sent_fields(client::SendRequest.send_request(
        head(Some("http"), Some("/a?b"), Some("example.com")),
        true,
        Ticket(1),
    ));
    let received = fields.iter().map(|(k, v)| field(k, v)).collect();
    let (request, _) = ServerConnection.build_request(incoming(received)).unwrap();
    assert_eq!(request.method, "POST");
    assert_eq!(request.uri, "http://example.com/a?b");
    assert_eq!(request.headers.get("accept").unwrap().as_bytes(), b"*/*");
    assert_eq!(request.headers.len(), 1);
}

#[test]
fn response_fields() {
    let (_, mut handle) = ServerConnection
        .build_request(incoming(Vec::new()))
        .unwrap();
    let response = ResponseHead {
        status: 201,
        headers: map_of(&[("x", "y")]),
    };
    let fields = sent_fields(handle.send_response(response, false, Ticket(1)));
    let expected: Vec<(Vec<u8>, Vec<u8>)> = vec![
        (b":status".to_vec(), b"201".to_vec()),
        (b"x".to_vec(), b"y".to_vec()),
    ];
    assert_eq!(fields, expected);
    // And back again
    let received: Vec<DecodedHeader> = fields.iter().map(|(k, v)| field(k, v)).collect();
    assert_eq!(response_status(&received), 201);
    assert_eq!(headers_to_header_map(&received).len(), 1);

    let body = handle.response_sent(Some(Ok(())), false).unwrap();
    assert_eq!(body.unwrap().stream_id().value(), 7);
    assert!(handle.response_sent(Some(Ok(())), true).unwrap().is_none());
    assert_eq!(
        handle.response_sent(None, true).unwrap_err().to_string(),
        "protocol error: connection closed"
    );
}

#[test]
fn server_commands() {
    let handle = ServerConnection;
    assert!(matches!(
        handle.shutdown(Ticket(2)),
        Command::GoAway {
            response_tx: Ticket(2)
        }
    ));
    assert!(matches!(
        handle.abrupt_shutdown(Reason::InternalError, Ticket(1)),
        Command::AbruptShutdown {
            reason: Reason::InternalError,
            ..
        }
    ));
    assert!(matches!(
        handle.set_target_window_size(9, Ticket(3)),
        Command::SetTargetWindowSize { size: 9, .. }
    ));
    assert!(matches!(
        handle.set_initial_window_size(8, Ticket(4)),
        Command::SetInitialWindowSize { size: 8, .. }
    ));
}

#[test]
fn builders_keep_what_was_set() {
    let extra = ConnExtra {
        max_concurrent_reset_streams: Some(3),
        reset_stream_duration: Some(4),
        max_send_buffer_size: Some(5),
    };
    let c = client::builder()
        .initial_window_size(100)
        .max_frame_size(LARGEST_MAX_FRAME_SIZE)
        .max_header_list_size(200)
        .initial_connection_window_size(300)
        .extra(extra)
        .config;
    assert_eq!(c.settings.local().initial_window_size, 100);
    assert_eq!(c.settings.local().max_frame_size, LARGEST_MAX_FRAME_SIZE);
    assert_eq!(c.settings.local().max_header_list_size, 200);
    assert_eq!(c.initial_connection_window_size, Some(300));
    assert_eq!(c.extra.max_send_buffer_size, Some(5));
    assert_eq!(c.settings.remote().initial_window_size, 65_535);

    let s = server::builder()
        .max_concurrent_streams(7)
        .initial_window_size(100)
        .max_frame_size(DEFAULT_MAX_FRAME_SIZE)
        .max_header_list_size(200)
        .initial_connection_window_size(300)
        .extra(extra)
        .config;
    assert_eq!(s.settings.local().max_concurrent_streams, 7);
    assert_eq!(s.settings.local().initial_window_size, 100);
    assert_eq!(s.settings.local().max_header_list_size, 200);
    assert_eq!(s.extra.reset_stream_duration, Some(4));
}

#[test]
fn announced_settings_say_everything() {
    let mut ours = ConnSettings::new();
    ours.local = SettingValues {
        header_table_size: 1,
        enable_push: false,
        max_concurrent_streams: 2,
        initial_window_size: 3,
        max_frame_size: 20_000,
        max_header_list_size: 4,
    };
    let frame = ours.build_initial_settings();
    assert_eq!(ours.sync, SyncState::WaitingAck { queued: false });
    let mut theirs = ConnSettings::new();
    assert!(theirs.is_valid());
    theirs.apply_remote(&frame);
    assert_eq!(*theirs.remote(), *ours.local());
    assert!(ours.build_local_settings().is_none());
    assert!(ours.recv_ack().is_some());
    assert!(ours.recv_ack().is_none());
    assert_eq!(ours.sync, SyncState::Synced);
}

#[test]
fn settings_values_read_back() {
    let values = SettingsView {
        ack: false,
        header_table_size: Some(1),
        enable_push: Some(true),
        max_concurrent_streams: None,
        initial_window_size: Some(5),
        max_frame_size: None,
        max_header_list_size: None,
    };
    let frame = Settings::with_values(values).unwrap();
    assert!(frame.allows_payload());
    assert!(!frame.is_ack());
    assert_eq!(frame.initial_window_size(), Some(5));
    assert_eq!(frame.max_concurrent_streams(), None);
    assert_eq!(frame.values().header_table_size, Some(1));
}

#[test]
fn windows_are_charged_and_given_back() {
    let mut f = FlowControl::new(10);
    f.consume(4).unwrap();
    f.consume(6).unwrap();
    assert_eq!(f.available(), 0);
    assert!(f.consume(1).is_err());
    assert!(f.charge(1 << 32).is_err());
    assert!(f.charge(0).is_ok());
    f.release(10).unwrap();
    assert_eq!(f, FlowControl::new(10));
    assert!(f.release(0x7fff_ffff).is_err());
    // The window can become negative
    f.consume(8).unwrap();
    f.update_initial_window_size(5).unwrap();
    assert_eq!(f.window_size(), -3);
    assert_eq!(f.available(), 0);
    f.update_initial_window_size(10).unwrap();
    assert_eq!(f.window_size(), 2);
}

#[test]
fn stream_life_cycle() {
    let s = StreamState::Idle.send_headers(false).unwrap();
    assert_eq!(s, StreamState::Open);
    let s = s.recv_end_stream().unwrap();
    assert_eq!(s, StreamState::HalfClosedRemote);
    assert!(s.can_send() && !s.can_recv());
    assert_eq!(s.send_headers(false).unwrap(), StreamState::HalfClosedRemote);
    assert!(s.recv_headers(false).is_err());
    let s = s.send_end_stream().unwrap();
    assert!(s.is_closed());
    assert_eq!(
        s.send_end_stream().unwrap_err().to_string(),
        "protocol error: stream does not allow sending"
    );
    assert_eq!(
        s.recv_end_stream().unwrap_err().to_string(),
        "protocol error: stream does not allow receiving"
    );
    assert_eq!(
        StreamState::Idle.recv_headers(true).unwrap(),
        StreamState::HalfClosedRemote
    );
    assert_eq!(
        StreamState::Idle.send_headers(true).unwrap(),
        StreamState::HalfClosedLocal
    );
    assert_eq!(StreamState::Open.reset(), StreamState::Closed);
}

#[test]
fn store_keeps_open_streams() {
    let mut store = StreamStore::new(false);
    assert_eq!(store.next_stream_id().unwrap().value(), 2);
    assert_eq!(store.next_stream_id().unwrap().value(), 4);
    for n in [1u32, 3, 5] {
        store.insert(id(n), 10, 20);
    }
    store.get_mut(&id(3)).unwrap().state = StreamState::Closed;
    assert_eq!(store.active_count(), 2);
    let gone: Vec<(u32, bool)> = store
        .gc_closed()
        .iter()
        .map(|(i, reset)| (i.value(), *reset))
        .collect();
    assert_eq!(gone, vec![(3, false)]);
    let left: Vec<u32> = store.iter_ids().iter().map(|i| i.value()).collect();
    assert_eq!(left, vec![1, 5]);
    store.apply_release(&id(5), 10);
    let due = store.streams_needing_window_update();
    assert_eq!(due.len(), 1);
    assert_eq!((due[0].0.value(), due[0].1), (5, 10));
    store.reset_released(&id(5), 10);
    assert!(store.streams_needing_window_update().is_empty());
    assert_eq!(store.get(&id(5)).unwrap().recv_flow.window_size(), 30);
}

#[test]
fn reset_counting_forgets() {
    let mut store = StreamStore::new(false);
    store.set_max_reset_streams(1);
    store.set_reset_window(10);
    assert!(!store.record_reset(0));
    assert!(!store.record_reset(11));
    assert!(store.record_reset(21));
}

#[test]
fn error_kinds_and_texts() {
    let stream = H2Error::stream(3, Reason::Cancel);
    assert!(stream.is_reset() && !stream.is_remote() && !stream.is_library());
    assert_eq!(stream.to_string(), "stream 3 error: CANCEL");
    let remote = H2Error::stream_remote(3, Reason::Cancel);
    assert!(remote.is_remote());
    let away = H2Error::go_away(5, Reason::NoError, Bytes::new());
    assert!(away.is_go_away() && away.is_remote());
    assert_eq!(
        away.to_string(),
        "peer going away after stream 5: NO_ERROR"
    );
    let conn = H2Error::connection(Reason::InternalError);
    assert!(conn.is_connection());
    assert_eq!(conn.to_string(), "connection error: INTERNAL_ERROR");
    let io = H2Error::Io("broken pipe".to_string());
    assert!(io.is_io() && !io.is_library());
    assert_eq!(io.to_string(), "i/o error: broken pipe");
    assert_eq!(io.reason(), None);
    let frame = H2Error::Frame(FrameError::InvalidPadding("too long".to_string()));
    assert!(frame.is_library());
    assert_eq!(frame.to_string(), "frame error: too long");
    assert_eq!(
        H2Error::InvalidFrame("x".to_string()).to_string(),
        "invalid frame: x"
    );
    assert_eq!(
        H2Error::HpackDecode("x".to_string()).to_string(),
        "header decoding error: x"
    );
    assert_eq!(
        H2Error::Hpack("x".to_string()).to_string(),
        "header compression error: x"
    );
}

#[test]
fn reason_codes() {
    let all = [
        Reason::NoError,
        Reason::ProtocolError,
        Reason::InternalError,
        Reason::FlowControlError,
        Reason::SettingsTimeout,
        Reason::StreamClosed,
        Reason::FrameSizeError,
        Reason::RefusedStream,
        Reason::Cancel,
        Reason::CompressionError,
        Reason::ConnectError,
        Reason::EnhanceYourCalm,
        Reason::InadequateSecurity,
        Reason::Http11Required,
    ];
    for (i, reason) in all.iter().enumerate() {
        assert_eq!(reason.code(), i as u32);
    }
    assert_eq!(Reason::EnhanceYourCalm.name(), "ENHANCE_YOUR_CALM");
}

#[test]
fn numbers_as_text() {
    assert_eq!(text::decimal(0), "0");
    assert_eq!(text::decimal(u64::MAX), "18446744073709551615");
    assert_eq!(
        text::parse_u64(b"18446744073709551615"),
        Some(u64::MAX)
    );
    assert_eq!(text::parse_u64(b"18446744073709551616"), None);
    assert_eq!(text::parse_u64(b"+7"), Some(7));
    assert_eq!(text::parse_u64(b""), None);
    assert_eq!(text::parse_u64(b"+"), None);
    assert_eq!(text::parse_u64(b"-1"), None);
    assert_eq!(text::parse_u64(b"1 "), None);
    assert_eq!(text::parse_u16(b"65535"), Some(65_535));
    assert_eq!(text::parse_u16(b"65536"), None);
    assert!(text::is_text(b"abc", "abc"));
    assert!(!text::is_text(b"abd", "abc"));
    assert!(buf::same_bytes(b"abc", b"abc"));
    assert!(!buf::same_bytes(b"abc", b"ab"));
}

#[test]
fn header_maps_hold_valid_fields() {
    let fields = [
        field(b":path", b"/"),
        field(b"x", b"1"),
        field(b"X", b"2"),
        field(b"", b"3"),
        field(b"sp ace", b"4"),
        field(b"tab", b"a\tb"),
        field(b"nul", b"a\x00b"),
        field(b"del", b"a\x7fb"),
        field(b"high", b"\xff"),
    ];
    let map = headers_to_header_map(&fields);
    let xs: Vec<&[u8]> = map.get_all("x").iter().map(|v| v.as_bytes()).collect();
    assert_eq!(xs, vec![&b"1"[..], &b"2"[..]]);
    assert_eq!(map.get("tab").unwrap().as_bytes(), b"a\tb");
    assert_eq!(map.get("high").unwrap().as_bytes(), b"\xff");
    assert_eq!(map.len(), 4);
    assert!(!has_no_pseudo_headers(&fields));
    assert!(has_no_pseudo_headers(&fields[1..]));
}
