//! The connection: errors, flow control, streams, and header validation.

use bytes::Bytes;
use compio_h2::codec::FrameWriter;
use compio_h2::error::{H2Error, Reason};
use compio_h2::frame;
use compio_h2::frame::StreamId;
use compio_h2::proto::connection::{ConnExtra, ConnState};
use compio_h2::proto::flow_control::FlowControl;
use compio_h2::proto::headers::{
    parse_content_length, validate_pseudo_headers, validate_regular_headers, DecodedHeader,
};
use compio_h2::proto::ping_pong::PingPong;
use compio_h2::proto::settings::ConnSettings;
use compio_h2::proto::streams::StreamStore;

#[test]
fn test_stream_error_does_not_kill_connection() {
    // Verify that H2Error::StreamError is properly categorized
    let err = H2Error::stream(3, Reason::Cancel);
    match &err {
        H2Error::StreamError {
            stream_id, reason, ..
        } => {
            assert_eq!(*stream_id, 3);
            assert_eq!(*reason, Reason::Cancel);
        }
        _ => panic!("expected StreamError"),
    }

    // Verify ConnectionError is distinct
    let err = H2Error::connection(Reason::ProtocolError);
    assert!(matches!(err, H2Error::ConnectionError { .. }));
}

#[test]
fn test_window_update_consumed_tracking() {
    // Simulate the consumed byte tracking for WINDOW_UPDATE decisions
    let mut recv_flow = FlowControl::default(); // 65535
    let mut consumed: u32 = 0;
    let threshold = (recv_flow.initial_window_size() / 2) as u32; // 32767

    // Consume some data — below threshold
    recv_flow.consume(20000).unwrap();
    consumed += 20000;
    assert!(consumed < threshold);

    // Consume more — crosses threshold
    recv_flow.consume(15000).unwrap();
    consumed += 15000;
    assert!(consumed >= threshold);
    assert_eq!(consumed, 35000);

    // Send WINDOW_UPDATE for consumed amount, restore window, reset counter
    let increment = consumed;
    recv_flow.release(increment).unwrap();
    consumed = 0;

    // Window should be back to initial
    assert_eq!(recv_flow.window_size(), 65535);
    assert_eq!(consumed, 0);

    // New consumption starts fresh counter
    recv_flow.consume(10000).unwrap();
    consumed += 10000;
    assert!(consumed < threshold); // 10000 < 32767 — no spurious WINDOW_UPDATE
}

#[test]
fn test_conn_state_stream_error_isolation() {
    // ConnState should have the stream error → RST_STREAM pattern
    // Verify the error types are properly distinguished
    let stream_err = H2Error::StreamError {
        stream_id: 5,
        reason: Reason::FlowControlError,
        remote: false,
    };
    let conn_err = H2Error::connection(Reason::ProtocolError);

    // Stream errors should match the StreamError pattern
    assert!(matches!(stream_err, H2Error::StreamError { .. }));

    // Connection errors should NOT match StreamError
    assert!(!matches!(conn_err, H2Error::StreamError { .. }));
}

#[test]
fn test_stream_level_window_update_tracking() {
    let mut store = StreamStore::new(false);
    store.insert(StreamId::new(1), 65535, 65535);
    if let Some(s) = store.get_mut(&StreamId::new(1)) {
        s.state = s.state.recv_headers(false).unwrap();
    }

    // No released bytes — no update needed
    assert!(store.streams_needing_window_update().is_empty());

    // Release some bytes (simulating app calling release_capacity)
    store.apply_release(&StreamId::new(1), 35000);
    let updates = store.streams_needing_window_update();
    assert_eq!(updates.len(), 1);
    assert_eq!(updates[0].0, StreamId::new(1));
    assert_eq!(updates[0].1, 35000);

    // Reset after sending WINDOW_UPDATE
    store.reset_released(&StreamId::new(1), 35000);
    if let Some(s) = store.get(&StreamId::new(1)) {
        assert_eq!(s.released, 0);
    }
    assert!(store.streams_needing_window_update().is_empty());
}

#[test]
fn test_goaway_closes_higher_streams() {
    let mut state = make_client_state();

    // Insert some streams
    let initial_send = 65535i32;
    let initial_recv = 65535i32;
    state
        .streams
        .insert(StreamId::new(1), initial_send, initial_recv);
    state
        .streams
        .insert(StreamId::new(3), initial_send, initial_recv);
    state
        .streams
        .insert(StreamId::new(5), initial_send, initial_recv);

    // Set streams to Open
    for id in [1u32, 3, 5] {
        if let Some(s) = state.streams.get_mut(&StreamId::new(id)) {
            s.state = s.state.send_headers(false).unwrap();
        }
    }

    // Receive GOAWAY with last_stream_id=3
    let goaway = frame::GoAway::new(StreamId::new(3), Reason::NoError);
    state.handle_goaway(goaway);

    assert!(state.going_away);
    // Stream 1 and 3 should still be open
    assert!(
        !state
            .streams
            .get(&StreamId::new(1))
            .unwrap()
            .state
            .is_closed()
    );
    assert!(
        !state
            .streams
            .get(&StreamId::new(3))
            .unwrap()
            .state
            .is_closed()
    );
    // Stream 5 should be closed
    assert!(
        state
            .streams
            .get(&StreamId::new(5))
            .unwrap()
            .state
            .is_closed()
    );
}

#[test]
fn test_settings_initial_window_size_adjusts_existing_streams() {
    // must be applied to all existing streams' send flow control windows.
    let mut state = make_client_state();

    // Insert streams with default initial window size (65535)
    state
        .streams
        .insert(StreamId::new(1), 65535, 65535);
    state
        .streams
        .insert(StreamId::new(3), 65535, 65535);
    for id in [1u32, 3] {
        if let Some(s) = state.streams.get_mut(&StreamId::new(id)) {
            s.state = s.state.send_headers(false).unwrap();
        }
    }

    // Consume some of stream 1's send window
    if let Some(s) = state.streams.get_mut(&StreamId::new(1)) {
        s.send_flow.consume(10000).unwrap();
    }

    // Simulate receiving SETTINGS with new initial_window_size = 32768
    // Delta = 32768 - 65535 = -32767
    let new_window = 32768i32;
    let stream_ids: Vec<StreamId> = state.streams.iter_ids();
    for id in stream_ids {
        if let Some(stream) = state.streams.get_mut(&id) {
            if stream.state.is_closed() {
                continue;
            }
            stream
                .send_flow
                .update_initial_window_size(new_window)
                .unwrap();
        }
    }

    // Stream 1 had 65535 - 10000 = 55535, delta = -32767, so now 55535 - 32767 =
    // 22768
    assert_eq!(
        state
            .streams
            .get(&StreamId::new(1))
            .unwrap()
            .send_flow
            .window_size(),
        22768
    );
    // Stream 3 had 65535, delta = -32767, so now 65535 - 32767 = 32768
    assert_eq!(
        state
            .streams
            .get(&StreamId::new(3))
            .unwrap()
            .send_flow
            .window_size(),
        32768
    );
}

#[test]
fn test_settings_initial_window_size_increase() {
    let mut state = make_client_state();

    state
        .streams
        .insert(StreamId::new(1), 65535, 65535);
    if let Some(s) = state.streams.get_mut(&StreamId::new(1)) {
        s.state = s.state.send_headers(false).unwrap();
        s.send_flow.consume(60000).unwrap(); // window = 5535
    }

    // Increase initial window to 131070 (delta = +65535)
    let new_window = 131070i32;
    if let Some(stream) = state.streams.get_mut(&StreamId::new(1)) {
        stream
            .send_flow
            .update_initial_window_size(new_window)
            .unwrap();
    }

    // 5535 + 65535 = 71070
    assert_eq!(
        state
            .streams
            .get(&StreamId::new(1))
            .unwrap()
            .send_flow
            .window_size(),
        71070
    );
}

#[test]
fn test_settings_initial_window_size_skips_closed_streams() {
    let mut state = make_client_state();

    state
        .streams
        .insert(StreamId::new(1), 65535, 65535);
    state
        .streams
        .insert(StreamId::new(3), 65535, 65535);

    // Open stream 1, close stream 3
    if let Some(s) = state.streams.get_mut(&StreamId::new(1)) {
        s.state = s.state.send_headers(false).unwrap();
    }
    if let Some(s) = state.streams.get_mut(&StreamId::new(3)) {
        s.state = s.state.reset();
    }

    let new_window = 32768i32;
    let stream_ids: Vec<StreamId> = state.streams.iter_ids();
    for id in stream_ids {
        if let Some(stream) = state.streams.get_mut(&id) {
            if stream.state.is_closed() {
                continue;
            }
            stream
                .send_flow
                .update_initial_window_size(new_window)
                .unwrap();
        }
    }

    // Stream 1 (open): adjusted
    assert_eq!(
        state
            .streams
            .get(&StreamId::new(1))
            .unwrap()
            .send_flow
            .window_size(),
        32768
    );
    // Stream 3 (closed): NOT adjusted — still at original 65535
    assert_eq!(
        state
            .streams
            .get(&StreamId::new(3))
            .unwrap()
            .send_flow
            .window_size(),
        65535
    );
}

#[test]
fn test_headers_continuation_splitting() {
    // Verify that a header block larger than max_frame_size would be
    // correctly split into a HEADERS frame + CONTINUATION frames.
    // We test the frame construction logic directly (not the async writer).
    let stream_id = StreamId::new(1);
    let max_frame_size: usize = 16;

    // Create a header block larger than max_frame_size (50 bytes)
    let header_block = Bytes::from(vec![0xAA; 50]);
    let headers = frame::Headers::new(stream_id, header_block.clone());
    assert!(headers.is_end_headers());

    // Simulate the splitting logic from write_headers_with_continuation
    assert!(header_block.len() > max_frame_size);

    // First frame: HEADERS with first chunk, no END_HEADERS
    let first_chunk = header_block.slice(..max_frame_size);
    let mut first_frame = frame::Headers::new(stream_id, first_chunk.clone());
    first_frame.clear_end_headers();
    assert!(!first_frame.is_end_headers());
    assert_eq!(first_frame.header_block().len(), max_frame_size);
    assert_eq!(first_frame.stream_id(), stream_id);

    // Remaining chunks as CONTINUATION frames
    let mut offset = max_frame_size;
    let mut continuations = Vec::new();
    while offset < header_block.len() {
        let end = std::cmp::min(offset + max_frame_size, header_block.len());
        let chunk = header_block.slice(offset..end);
        let is_last = end == header_block.len();

        let mut cont = frame::Continuation::new(stream_id, chunk);
        if is_last {
            cont.set_end_headers();
        }
        continuations.push(cont);
        offset = end;
    }

    // Should produce ceil((50 - 16) / 16) = 3 CONTINUATION frames
    // chunks: 16, 16, 2
    assert_eq!(continuations.len(), 3);

    // Only the last CONTINUATION should have END_HEADERS
    assert!(!continuations[0].is_end_headers());
    assert!(!continuations[1].is_end_headers());
    assert!(continuations[2].is_end_headers());

    // All continuations must share the same stream ID
    for cont in &continuations {
        assert_eq!(cont.stream_id(), stream_id);
    }

    // Reassemble: all chunks together should equal the original header block
    let mut reassembled = first_chunk.to_vec();
    for cont in &continuations {
        reassembled.extend_from_slice(cont.header_block());
    }
    assert_eq!(reassembled, header_block.as_ref());
}

#[test]
fn test_headers_no_split_when_fits() {
    // A header block that fits in one frame should not be split
    let stream_id = StreamId::new(3);
    let max_frame_size: usize = 100;
    let header_block = Bytes::from(vec![0xBB; 50]);
    let headers = frame::Headers::new(stream_id, header_block.clone());

    assert!(header_block.len() <= max_frame_size);
    assert!(headers.is_end_headers());
    assert_eq!(headers.header_block().len(), 50);
}

#[test]
fn test_headers_split_preserves_end_stream() {
    // END_STREAM flag on the original HEADERS must be preserved on the first frame
    let stream_id = StreamId::new(1);
    let max_frame_size: usize = 10;
    let header_block = Bytes::from(vec![0xCC; 25]);

    let mut original = frame::Headers::new(stream_id, header_block.clone());
    original.set_end_stream();
    assert!(original.is_end_stream());

    // Split: first frame keeps END_STREAM, clears END_HEADERS
    let first_chunk = header_block.slice(..max_frame_size);
    let mut first_frame = frame::Headers::new(stream_id, first_chunk);
    if original.is_end_stream() {
        first_frame.set_end_stream();
    }
    first_frame.clear_end_headers();

    assert!(first_frame.is_end_stream());
    assert!(!first_frame.is_end_headers());
}

#[test]
fn test_pending_send_buffering() {
    // Test the PendingSend struct and flow control gating logic
    let flow = FlowControl::new(100);
    assert_eq!(flow.available(), 100);

    // Data that fits
    assert!(flow.available() >= 50);

    // Data that doesn't fit
    assert!(flow.available() < 200);

    // After WINDOW_UPDATE, it should fit
    let mut flow = flow;
    flow.apply_window_update(150).unwrap();
    assert!(flow.available() >= 200);
}

// --- Pseudo-header validation tests ---

fn dh(name: &[u8], value: &[u8]) -> DecodedHeader {
    DecodedHeader {
        name: Bytes::from(name.to_vec()),
        value: Bytes::from(value.to_vec()),
        sensitive: false,
    }
}

#[test]
fn test_valid_request_headers() {
    let headers = vec![
        dh(b":method", b"GET"),
        dh(b":scheme", b"https"),
        dh(b":path", b"/"),
        dh(b"host", b"example.com"),
    ];
    assert!(validate_pseudo_headers(&headers, true).is_ok());
}

#[test]
fn test_valid_response_headers() {
    let headers = vec![dh(b":status", b"200"), dh(b"content-type", b"text/html")];
    assert!(validate_pseudo_headers(&headers, false).is_ok());
}

#[test]
fn test_pseudo_after_regular_rejected() {
    let headers = vec![
        dh(b":method", b"GET"),
        dh(b"host", b"example.com"),
        dh(b":scheme", b"https"), // pseudo after regular
    ];
    let err = validate_pseudo_headers(&headers, true).unwrap_err();
    assert!(err.to_string().contains("pseudo-header after regular"));
    assert_eq!(err.reason(), Some(Reason::ProtocolError));
    assert!(err.is_connection());
}

#[test]
fn test_duplicate_method_rejected() {
    let headers = vec![
        dh(b":method", b"GET"),
        dh(b":method", b"POST"),
        dh(b":scheme", b"https"),
        dh(b":path", b"/"),
    ];
    let err = validate_pseudo_headers(&headers, true).unwrap_err();
    assert!(err.to_string().contains("duplicate :method"));
    assert_eq!(err.reason(), Some(Reason::ProtocolError));
    assert!(err.is_connection());
}

#[test]
fn test_missing_method_rejected() {
    let headers = vec![dh(b":scheme", b"https"), dh(b":path", b"/")];
    let err = validate_pseudo_headers(&headers, true).unwrap_err();
    assert!(err.to_string().contains("missing required :method"));
    assert_eq!(err.reason(), Some(Reason::ProtocolError));
    assert!(err.is_connection());
}

#[test]
fn test_missing_scheme_rejected() {
    let headers = vec![dh(b":method", b"GET"), dh(b":path", b"/")];
    let err = validate_pseudo_headers(&headers, true).unwrap_err();
    assert!(err.to_string().contains("missing required :scheme"));
    assert_eq!(err.reason(), Some(Reason::ProtocolError));
    assert!(err.is_connection());
}

#[test]
fn test_missing_path_rejected() {
    let headers = vec![dh(b":method", b"GET"), dh(b":scheme", b"https")];
    let err = validate_pseudo_headers(&headers, true).unwrap_err();
    assert!(err.to_string().contains("missing required :path"));
    assert_eq!(err.reason(), Some(Reason::ProtocolError));
    assert!(err.is_connection());
}

#[test]
fn test_connect_exempt_from_scheme_path() {
    // CONNECT is exempt from :scheme and :path requirements
    let headers = vec![
        dh(b":method", b"CONNECT"),
        dh(b":authority", b"example.com:443"),
    ];
    assert!(validate_pseudo_headers(&headers, true).is_ok());
}

#[test]
fn test_missing_status_rejected() {
    let headers = vec![dh(b"content-type", b"text/html")];
    let err = validate_pseudo_headers(&headers, false).unwrap_err();
    assert!(err.to_string().contains("missing required :status"));
    assert_eq!(err.reason(), Some(Reason::ProtocolError));
    assert!(err.is_connection());
}

#[test]
fn test_unknown_pseudo_header_rejected() {
    let headers = vec![
        dh(b":method", b"GET"),
        dh(b":scheme", b"https"),
        dh(b":path", b"/"),
        dh(b":foo", b"bar"),
    ];
    let err = validate_pseudo_headers(&headers, true).unwrap_err();
    assert!(err.to_string().contains("unknown pseudo-header"));
    assert_eq!(err.reason(), Some(Reason::ProtocolError));
    assert!(err.is_connection());
}

#[test]
fn test_conn_extra_defaults() {
    let extra = ConnExtra::default();
    assert!(extra.max_concurrent_reset_streams.is_none());
    assert!(extra.reset_stream_duration.is_none());
    assert!(extra.max_send_buffer_size.is_none());
}

/// Verify that the DATA frame splitting loop in `cmd_send_data` produces
/// the right number of chunks with only the last carrying END_STREAM.
#[test]
fn test_data_frame_splitting_at_max_frame_size() {
    // Simulate the splitting logic from cmd_send_data for a 50-byte payload
    // with max_frame_size = 16.
    let payload = Bytes::from(vec![0xAA; 50]);
    let max_frame: usize = 16;
    let end_stream = true;

    let mut frames: Vec<(usize, bool)> = Vec::new(); // (len, has_end_stream)
    let mut offset = 0;
    while offset < payload.len() {
        let end = std::cmp::min(offset + max_frame, payload.len());
        let chunk_len = end - offset;
        let is_last = end == payload.len();
        let has_es = end_stream && is_last;
        frames.push((chunk_len, has_es));
        offset = end;
    }

    // 50 / 16 = 3 full frames (16 bytes) + 1 partial (2 bytes) = 4 frames
    assert_eq!(frames.len(), 4);
    assert_eq!(frames[0], (16, false));
    assert_eq!(frames[1], (16, false));
    assert_eq!(frames[2], (16, false));
    assert_eq!(frames[3], (2, true)); // only last has END_STREAM
}

/// Verify that a payload exactly equal to max_frame_size produces one
/// frame.
#[test]
fn test_data_frame_no_split_when_fits() {
    let payload = Bytes::from(vec![0xBB; 16384]);
    let max_frame: usize = 16384;

    let mut frame_count = 0;
    let mut offset = 0;
    while offset < payload.len() {
        let end = std::cmp::min(offset + max_frame, payload.len());
        frame_count += 1;
        offset = end;
    }
    assert_eq!(frame_count, 1);
}

/// Verify partial flow control: when available < data_len but > 0, only the
/// sendable portion should be consumed and the remainder queued.
#[test]
fn test_partial_flow_control_queuing() {
    let mut conn_flow = FlowControl::new(1000);
    let stream_flow = FlowControl::new(500); // stream is the bottleneck

    let data = Bytes::from(vec![0xCC; 800]);
    let data_len = data.len() as u32;
    let conn_avail = conn_flow.available();
    let stream_avail = stream_flow.available();
    let sendable = std::cmp::min(data_len, std::cmp::min(conn_avail, stream_avail)) as usize;

    // Should be 500 (stream-limited)
    assert_eq!(sendable, 500);
    assert!(sendable > 0);
    assert!(sendable < data.len());

    // Partial send: split data
    let send_now = data.slice(..sendable);
    let remainder = data.slice(sendable..);
    assert_eq!(send_now.len(), 500);
    assert_eq!(remainder.len(), 300);

    // Consume from flow control
    conn_flow.consume(sendable as u32).unwrap();
    assert_eq!(conn_flow.available(), 500);
}

// --- is_idle_peer_stream tests ---

fn make_server_state() -> ConnState {
    ConnState::new(
        false,
        false,
        ConnSettings::new(),
        PingPong::disabled(),
        None,
        ConnExtra::default(),
    )
}

fn make_client_state() -> ConnState {
    ConnState::new(
        true,
        false,
        ConnSettings::new(),
        PingPong::disabled(),
        None,
        ConnExtra::default(),
    )
}

#[test]
fn test_idle_peer_stream_server_detects_unseen_client_stream() {
    let mut state = make_server_state();
    // Server hasn't seen any client streams yet (last_peer_stream_id = 0)
    assert!(state.is_idle_peer_stream(&StreamId::new(1)));
    assert!(state.is_idle_peer_stream(&StreamId::new(3)));

    // After accepting stream 3, stream 1 is not idle (already passed)
    state.last_peer_stream_id = StreamId::new(3);
    assert!(!state.is_idle_peer_stream(&StreamId::new(1)));
    assert!(!state.is_idle_peer_stream(&StreamId::new(3)));
    assert!(state.is_idle_peer_stream(&StreamId::new(5)));
}

#[test]
fn test_idle_peer_stream_client_detects_even_server_streams() {
    let mut state = make_client_state();
    // Client: peer is server, server-initiated streams are even
    // Even stream IDs higher than last_peer_stream_id are idle
    assert!(!state.is_idle_peer_stream(&StreamId::new(1))); // odd = client-initiated, not peer
    assert!(state.is_idle_peer_stream(&StreamId::new(2))); // even + > 0 = idle server stream

    state.last_peer_stream_id = StreamId::new(2);
    assert!(!state.is_idle_peer_stream(&StreamId::new(2))); // no longer idle
    assert!(state.is_idle_peer_stream(&StreamId::new(4))); // still idle
}

#[test]
fn test_even_stream_id_from_client_is_connection_error() {
    let state = make_server_state();
    // Even IDs should fail the server-side odd check in handle_headers,
    // but is_idle_peer_stream should still identify them correctly
    assert!(state.is_idle_peer_stream(&StreamId::new(2)));
}

#[test]
fn test_non_monotonic_stream_id_detected() {
    let mut state = make_server_state();
    state.last_peer_stream_id = StreamId::new(5);
    // Stream 3 is not idle (below last seen) — won't trigger idle error,
    // but won't be found in store either → ignored (closed/GC'd)
    assert!(!state.is_idle_peer_stream(&StreamId::new(3)));
    // Stream 7 is idle (above last seen) — connection error
    assert!(state.is_idle_peer_stream(&StreamId::new(7)));
}

#[test]
fn test_data_on_half_closed_remote_is_stream_error() {
    // Verify the error type for DATA on half-closed(remote) stream
    // The handle_data path checks can_recv() → StreamClosed stream error
    let err = H2Error::stream(3, Reason::StreamClosed);
    assert!(err.is_reset());
    assert_eq!(err.reason(), Some(Reason::StreamClosed));
    assert_eq!(err.stream_id(), Some(3));
    // This is a stream error, NOT a connection error
    assert!(!err.is_connection());
}

#[test]
fn test_connection_error_has_reason_for_goaway() {
    // Verify that connection errors from idle stream checks have reason()
    // so that run_event_loop sends GOAWAY
    let err = H2Error::connection(Reason::ProtocolError);
    assert!(err.reason().is_some());
    assert_eq!(err.reason(), Some(Reason::ProtocolError));
    assert!(err.is_connection());
}

#[test]
fn test_connection_msg_preserves_message() {
    let err = H2Error::connection_msg(Reason::ProtocolError, "duplicate :method");
    assert_eq!(err.reason(), Some(Reason::ProtocolError));
    assert!(err.is_connection());
    assert!(err.to_string().contains("duplicate :method"));
}

// --- validate_regular_headers tests ---

#[test]
fn test_regular_headers_uppercase_rejected() {
    let headers = vec![dh(b":method", b"GET"), dh(b"Content-Type", b"text/html")];
    let err = validate_regular_headers(&headers, StreamId::new(1)).unwrap_err();
    assert_eq!(err.reason(), Some(Reason::ProtocolError));
}

#[test]
fn test_regular_headers_connection_rejected() {
    let headers = vec![dh(b"connection", b"keep-alive")];
    assert!(validate_regular_headers(&headers, StreamId::new(1)).is_err());
}

#[test]
fn test_regular_headers_keep_alive_rejected() {
    let headers = vec![dh(b"keep-alive", b"timeout=5")];
    assert!(validate_regular_headers(&headers, StreamId::new(1)).is_err());
}

#[test]
fn test_regular_headers_transfer_encoding_rejected() {
    let headers = vec![dh(b"transfer-encoding", b"chunked")];
    assert!(validate_regular_headers(&headers, StreamId::new(1)).is_err());
}

#[test]
fn test_regular_headers_upgrade_rejected() {
    let headers = vec![dh(b"upgrade", b"websocket")];
    assert!(validate_regular_headers(&headers, StreamId::new(1)).is_err());
}

#[test]
fn test_regular_headers_te_trailers_allowed() {
    let headers = vec![dh(b"te", b"trailers")];
    assert!(validate_regular_headers(&headers, StreamId::new(1)).is_ok());
}

#[test]
fn test_regular_headers_te_gzip_rejected() {
    let headers = vec![dh(b"te", b"gzip")];
    assert!(validate_regular_headers(&headers, StreamId::new(1)).is_err());
}

#[test]
fn test_regular_headers_valid_passes() {
    let headers = vec![
        dh(b":status", b"200"),
        dh(b"content-type", b"text/html"),
        dh(b"x-custom", b"value"),
    ];
    assert!(validate_regular_headers(&headers, StreamId::new(1)).is_ok());
}

// --- validate_pseudo_headers cross-checks ---

#[test]
fn test_status_in_request_rejected() {
    let headers = vec![
        dh(b":method", b"GET"),
        dh(b":scheme", b"https"),
        dh(b":path", b"/"),
        dh(b":status", b"200"),
    ];
    let err = validate_pseudo_headers(&headers, true).unwrap_err();
    assert!(err.to_string().contains(":status not allowed in request"));
}

#[test]
fn test_request_pseudos_in_response_rejected() {
    let headers = vec![dh(b":status", b"200"), dh(b":method", b"GET")];
    let err = validate_pseudo_headers(&headers, false).unwrap_err();
    assert!(
        err.to_string()
            .contains("request pseudo-headers not allowed in response")
    );
}

#[test]
fn test_empty_path_rejected() {
    let headers = vec![
        dh(b":method", b"GET"),
        dh(b":scheme", b"https"),
        dh(b":path", b""),
    ];
    let err = validate_pseudo_headers(&headers, true).unwrap_err();
    assert!(err.to_string().contains("empty :path"));
}

#[test]
fn test_response_with_scheme_rejected() {
    let headers = vec![dh(b":status", b"200"), dh(b":scheme", b"https")];
    let err = validate_pseudo_headers(&headers, false).unwrap_err();
    assert!(
        err.to_string()
            .contains("request pseudo-headers not allowed in response")
    );
}

#[test]
fn test_response_with_path_rejected() {
    let headers = vec![dh(b":status", b"200"), dh(b":path", b"/")];
    let err = validate_pseudo_headers(&headers, false).unwrap_err();
    assert!(
        err.to_string()
            .contains("request pseudo-headers not allowed in response")
    );
}

#[test]
fn test_response_with_authority_rejected() {
    let headers = vec![dh(b":status", b"200"), dh(b":authority", b"example.com")];
    let err = validate_pseudo_headers(&headers, false).unwrap_err();
    assert!(
        err.to_string()
            .contains("request pseudo-headers not allowed in response")
    );
}

// --- Content-length helper tests ---

#[test]
fn test_parse_content_length_present() {
    let headers = vec![dh(b":method", b"GET"), dh(b"content-length", b"42")];
    assert_eq!(parse_content_length(&headers), Some(42));
}

#[test]
fn test_parse_content_length_absent() {
    let headers = vec![dh(b":method", b"GET")];
    assert_eq!(parse_content_length(&headers), None);
}

#[test]
fn test_parse_content_length_invalid() {
    let headers = vec![dh(b"content-length", b"not-a-number")];
    assert_eq!(parse_content_length(&headers), None);
}

#[test]
fn test_parse_content_length_zero() {
    let headers = vec![dh(b"content-length", b"0")];
    assert_eq!(parse_content_length(&headers), Some(0));
}

/// HEADERS with a stream ID that is not above the last one end the connection,
/// not just the stream.
#[test]
fn test_non_monotonic_stream_id_is_connection_error() {
    let mut state = ConnState::new(
        false,
        true,
        ConnSettings::new(),
        PingPong::disabled(),
        None,
        ConnExtra::default(),
    );
    let mut writer = FrameWriter::new(());
    let request = || {
        Ok(vec![
            dh(b":method", b"GET"),
            dh(b":path", b"/"),
            dh(b":scheme", b"http"),
        ])
    };
    let headers = |id: u32| {
        let mut h = frame::Headers::new(StreamId::new(id), Bytes::from_static(&[0x82, 0x84, 0x86]));
        h.set_end_stream();
        frame::Frame::Headers(h)
    };

    state
        .handle_frame(headers(3), request(), 0, &mut writer)
        .unwrap();
    let err = state
        .handle_frame(headers(1), request(), 0, &mut writer)
        .unwrap_err();
    assert!(
        err.is_connection(),
        "non-monotonic stream ID should produce ConnectionError"
    );
    assert_eq!(err.reason(), Some(Reason::ProtocolError));
}
