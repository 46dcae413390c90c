//! What a connection does on behalf of its user, and at the end of a batch.

use bytes::Bytes;
use compio_h2::codec::FrameWriter;
use compio_h2::error::{H2Error, Reason};
use compio_h2::frame::{Data, Frame, FrameHeader, RstStream, StreamId, WindowUpdate};
use compio_h2::proto::connection::{Command, ConnExtra, ConnState};
use compio_h2::proto::events::{Event, HeaderJob, Ticket};
use compio_h2::proto::flow_control::FlowControl;
use compio_h2::proto::ping_pong::PingPong;
use compio_h2::proto::settings::ConnSettings;
use compio_h2::proto::streams::StreamState;

fn id(n: u32) -> StreamId {
    StreamId::new(n)
}

fn connection(is_client: bool, extra: ConnExtra) -> (ConnState, FrameWriter<()>) {
    let conn = ConnState::new(
        is_client,
        !is_client,
        ConnSettings::new(),
        PingPong::disabled(),
        None,
        extra,
    );
    (conn, FrameWriter::new(()))
}

/// A client with one open stream.
fn open_client(extra: ConnExtra) -> (ConnState, FrameWriter<()>) {
    let (mut conn, mut writer) = connection(true, extra);
    let job = conn.cmd_new_stream(Vec::new(), false, Ticket(0)).unwrap();
    conn.cmd_send_headers(job, Bytes::new(), &mut writer);
    conn.take_events();
    written(&mut writer);
    (conn, writer)
}

fn written(writer: &mut FrameWriter<()>) -> Vec<(FrameHeader, Vec<u8>)> {
    writer.flush_buf();
    let mut all = Vec::new();
    for chunk in writer.take_ready() {
        all.extend_from_slice(&chunk);
    }
    let mut rest: &[u8] = &all;
    let mut frames = Vec::new();
    while !rest.is_empty() {
        let mut head = [0u8; 9];
        head.copy_from_slice(&rest[..9]);
        let header = FrameHeader::decode(&head);
        let end = 9 + header.length as usize;
        frames.push((header, rest[9..end].to_vec()));
        rest = &rest[end..];
    }
    frames
}

fn send_data(n: u32, data: &[u8], end_stream: bool, ticket: u64) -> Command {
    Command::SendData {
        stream_id: id(n),
        data: Bytes::copy_from_slice(data),
        end_stream,
        response_tx: Ticket(ticket),
    }
}

fn done(events: &[Event], ticket: u64) -> Option<&Result<(), H2Error>> {
    events.iter().find_map(|e| match e {
        Event::Done { ticket: t, result } if t.0 == ticket => Some(result),
        _ => None,
    })
}

fn granted(events: &[Event], ticket: u64) -> Option<&Result<u32, H2Error>> {
    events.iter().find_map(|e| match e {
        Event::Granted {
            ticket: t, amount, ..
        } if t.0 == ticket => Some(amount),
        _ => None,
    })
}

fn refused_as_reset(events: &[Event], ticket: u64) -> bool {
    events
        .iter()
        .find_map(|e| match e {
            Event::Granted {
                ticket: t,
                amount: Err(_),
                reset,
            } if t.0 == ticket => Some(*reset),
            _ => None,
        })
        .unwrap()
}

#[test]
fn data_within_the_windows_is_sent_at_once() {
    let (mut conn, mut writer) = open_client(ConnExtra::default());
    assert!(conn
        .handle_command(send_data(1, b"hello", true, 7), &mut writer)
        .is_none());
    let frames = written(&mut writer);
    assert_eq!(frames.len(), 1);
    assert_eq!(frames[0].0.kind, 0x0);
    assert_eq!(frames[0].0.flags, 0x1);
    assert_eq!(frames[0].1, b"hello");
    assert_eq!(conn.conn_send_flow.window_size(), 65_530);
    let s = conn.streams.get(&id(1)).unwrap();
    assert_eq!(s.send_flow.window_size(), 65_530);
    assert_eq!(s.state, StreamState::HalfClosedLocal);
    assert_eq!(conn.pending_send_bytes, 0);
    assert!(done(&conn.take_events(), 7).unwrap().is_ok());
}

#[test]
fn data_beyond_the_windows_is_sent_in_part_and_flushed_later() {
    let (mut conn, mut writer) = open_client(ConnExtra::default());
    conn.streams.get_mut(&id(1)).unwrap().send_flow = FlowControl::new(3);
    conn.handle_command(send_data(1, b"hello", true, 7), &mut writer);
    let frames = written(&mut writer);
    assert_eq!(frames.len(), 1);
    assert_eq!(frames[0].0.flags, 0x0);
    assert_eq!(frames[0].1, b"hel");
    assert_eq!(conn.pending_send_bytes, 2);
    assert_eq!(conn.pending_sends.len(), 1);
    assert_eq!(conn.pending_sends[0].data.as_ref(), b"lo");
    assert!(conn.take_events().is_empty());

    // Nothing moves while the window is empty
    conn.flush_pending_sends(&mut writer);
    assert!(written(&mut writer).is_empty());
    assert_eq!(conn.pending_send_bytes, 2);

    conn.handle_window_update(WindowUpdate::new(id(1), 10))
        .unwrap();
    conn.flush_pending_sends(&mut writer);
    let frames = written(&mut writer);
    assert_eq!(frames.len(), 1);
    assert_eq!(frames[0].0.flags, 0x1);
    assert_eq!(frames[0].1, b"lo");
    assert_eq!(conn.pending_send_bytes, 0);
    assert!(conn.pending_sends.is_empty());
    assert!(done(&conn.take_events(), 7).unwrap().is_ok());
    assert_eq!(
        conn.streams.get(&id(1)).unwrap().send_flow.window_size(),
        8
    );
}

#[test]
fn connection_window_limits_all_streams() {
    let (mut conn, mut writer) = open_client(ConnExtra::default());
    conn.conn_send_flow = FlowControl::new(2);
    conn.handle_command(send_data(1, b"abc", false, 1), &mut writer);
    conn.handle_command(send_data(1, b"def", false, 2), &mut writer);
    assert_eq!(written(&mut writer)[0].1, b"ab");
    assert_eq!(conn.pending_send_bytes, 4);
    conn.handle_window_update(WindowUpdate::new(StreamId::zero(), 100))
        .unwrap();
    conn.flush_pending_sends(&mut writer);
    let frames = written(&mut writer);
    assert_eq!(frames.len(), 2);
    assert_eq!(frames[0].1, b"c");
    assert_eq!(frames[1].1, b"def");
}

#[test]
fn empty_data_needs_no_window() {
    let (mut conn, mut writer) = open_client(ConnExtra::default());
    conn.conn_send_flow = FlowControl::new(0);
    conn.handle_command(send_data(1, b"", true, 1), &mut writer);
    let frames = written(&mut writer);
    assert_eq!(frames.len(), 1);
    assert_eq!(frames[0].0.flags, 0x1);
    assert!(frames[0].1.is_empty());
    assert!(done(&conn.take_events(), 1).unwrap().is_ok());
}

#[test]
fn send_buffer_is_limited() {
    let extra = ConnExtra {
        max_send_buffer_size: Some(4),
        ..ConnExtra::default()
    };
    let (mut conn, mut writer) = open_client(extra);
    // What fits into the windows is not held to the limit
    conn.handle_command(send_data(1, b"hello", false, 1), &mut writer);
    assert!(done(&conn.take_events(), 1).unwrap().is_ok());
    assert_eq!(written(&mut writer)[0].1, b"hello");

    conn.conn_send_flow = FlowControl::new(2);
    conn.handle_command(send_data(1, b"hello", false, 2), &mut writer);
    let events = conn.take_events();
    assert_eq!(
        done(&events, 2).unwrap().as_ref().unwrap_err().to_string(),
        "protocol error: send buffer size limit exceeded"
    );
    assert!(written(&mut writer).is_empty());
    assert_eq!(conn.pending_send_bytes, 0);
    assert_eq!(conn.conn_send_flow.window_size(), 2);
}

#[test]
fn data_for_a_stream_that_is_gone() {
    let (mut conn, mut writer) = open_client(ConnExtra::default());
    conn.handle_command(send_data(9, b"hello", false, 1), &mut writer);
    let events = conn.take_events();
    let error = done(&events, 1).unwrap().as_ref().unwrap_err();
    assert_eq!(error.stream_id(), Some(9));
    assert_eq!(error.reason(), Some(Reason::StreamClosed));
    assert_eq!(conn.pending_send_bytes, 0);
    assert!(written(&mut writer).is_empty());

    // With the connection's window closed as well, it waits
    conn.conn_send_flow = FlowControl::new(0);
    conn.handle_command(send_data(9, b"hello", false, 2), &mut writer);
    assert!(conn.take_events().is_empty());
    assert_eq!(conn.pending_send_bytes, 5);
}

#[test]
fn stream_cannot_be_ended_twice() {
    let (mut conn, mut writer) = open_client(ConnExtra::default());
    conn.handle_command(send_data(1, b"a", true, 1), &mut writer);
    conn.handle_command(send_data(1, b"b", true, 2), &mut writer);
    let events = conn.take_events();
    assert_eq!(
        done(&events, 2).unwrap().as_ref().unwrap_err().to_string(),
        "protocol error: stream does not allow sending"
    );
    assert_eq!(written(&mut writer).len(), 1);
}

#[test]
fn large_data_is_cut_into_frames() {
    let (mut conn, mut writer) = open_client(ConnExtra::default());
    let data = vec![7u8; 20_000];
    conn.handle_command(send_data(1, &data, true, 1), &mut writer);
    let frames = written(&mut writer);
    assert_eq!(frames.len(), 2);
    assert_eq!(frames[0].1.len(), 16_384);
    assert_eq!(frames[0].0.flags, 0);
    assert_eq!(frames[1].1.len(), 3_616);
    assert_eq!(frames[1].0.flags, 1);
}

fn new_stream(ticket: u64) -> Command {
    Command::NewStream {
        headers: vec![(Bytes::from_static(b":method"), Bytes::from_static(b"GET"))],
        end_stream: true,
        response_tx: Ticket(ticket),
    }
}

#[test]
fn new_streams_get_odd_identifiers_in_order() {
    let (mut conn, mut writer) = connection(true, ConnExtra::default());
    for n in [1u32, 3, 5] {
        let job: HeaderJob = conn.handle_command(new_stream(9), &mut writer).unwrap();
        assert_eq!(job.stream_id.value(), n);
        assert_eq!(job.headers[0].1.as_ref(), b"GET");
        assert!(job.end_stream);
        assert!(job.opens.as_ref().unwrap().with_headers);
        conn.cmd_send_headers(job, Bytes::from_static(b"block"), &mut writer);
        let frames = written(&mut writer);
        assert_eq!(frames.len(), 1);
        assert_eq!(frames[0].0.kind, 0x1);
        assert_eq!(frames[0].0.flags, 0x5);
        assert_eq!(frames[0].0.stream_id.value(), n);
        assert_eq!(frames[0].1, b"block");
        let events = conn.take_events();
        match &events[0] {
            Event::Opened { ticket, stream } => {
                assert_eq!(*ticket, Ticket(9));
                let (opened, recv) = stream.as_ref().unwrap();
                assert_eq!(opened.value(), n);
                assert_eq!(recv.stream_id.value(), n);
            }
            _ => panic!("expected a new stream"),
        }
        assert_eq!(
            conn.streams.get(&id(n)).unwrap().state,
            StreamState::HalfClosedLocal
        );
    }
}

#[test]
fn new_streams_are_refused() {
    let (mut conn, mut writer) = connection(true, ConnExtra::default());
    conn.streams.set_max_concurrent_streams(0);
    assert!(conn.handle_command(new_stream(1), &mut writer).is_none());
    conn.streams.set_max_concurrent_streams(1);
    conn.going_away = true;
    assert!(conn.handle_command(new_stream(2), &mut writer).is_none());
    let events = conn.take_events();
    assert_eq!(events.len(), 2);
    for e in &events {
        match e {
            Event::Opened { stream, .. } => {
                let error = stream.as_ref().unwrap_err();
                assert!(error.is_connection());
                assert_eq!(error.reason(), Some(Reason::RefusedStream));
            }
            _ => panic!("expected a refusal"),
        }
    }
    assert!(written(&mut writer).is_empty());
}

#[test]
fn headers_are_sent_on_an_existing_stream() {
    let (mut conn, mut writer) = open_client(ConnExtra::default());
    let job = conn
        .handle_command(
            Command::SendTrailers {
                stream_id: id(1),
                trailers: Vec::new(),
                response_tx: Ticket(3),
            },
            &mut writer,
        )
        .unwrap();
    assert!(job.end_stream);
    assert!(job.opens.is_none());
    conn.cmd_send_headers(job, Bytes::from_static(b"t"), &mut writer);
    assert_eq!(written(&mut writer)[0].0.flags, 0x5);
    assert!(done(&conn.take_events(), 3).unwrap().is_ok());

    // The sending half is closed now
    let job = conn
        .handle_command(
            Command::SendHeaders {
                stream_id: id(1),
                headers: Vec::new(),
                end_stream: false,
                response_tx: Ticket(4),
            },
            &mut writer,
        )
        .unwrap();
    conn.cmd_send_headers(job, Bytes::from_static(b"h"), &mut writer);
    assert!(written(&mut writer).is_empty());
    let events = conn.take_events();
    assert_eq!(
        done(&events, 4).unwrap().as_ref().unwrap_err().to_string(),
        "protocol error: stream does not allow sending"
    );
}

#[test]
fn long_header_blocks_are_continued() {
    let (mut conn, mut writer) = open_client(ConnExtra::default());
    let job = conn
        .handle_command(
            Command::SendHeaders {
                stream_id: id(1),
                headers: Vec::new(),
                end_stream: true,
                response_tx: Ticket(4),
            },
            &mut writer,
        )
        .unwrap();
    conn.cmd_send_headers(job, Bytes::from(vec![1u8; 16_385]), &mut writer);
    let frames = written(&mut writer);
    assert_eq!(frames.len(), 2);
    assert_eq!((frames[0].0.kind, frames[0].0.flags), (0x1, 0x1));
    assert_eq!((frames[1].0.kind, frames[1].0.flags), (0x9, 0x4));
    assert_eq!(frames[1].1.len(), 1);
}

#[test]
fn graceful_shutdown_sends_goaway() {
    let (mut conn, mut writer) = connection(false, ConnExtra::default());
    conn.last_peer_stream_id = id(5);
    conn.handle_command(
        Command::GoAway {
            response_tx: Ticket(1),
        },
        &mut writer,
    );
    assert!(conn.going_away);
    let frames = written(&mut writer);
    assert_eq!(frames[0].0.kind, 0x7);
    assert_eq!(frames[0].1, vec![0, 0, 0, 5, 0, 0, 0, 0]);
    assert!(done(&conn.take_events(), 1).unwrap().is_ok());
}

#[test]
fn abrupt_shutdown_fails_every_stream() {
    let (mut conn, mut writer) = open_client(ConnExtra::default());
    conn.handle_command(
        Command::AbruptShutdown {
            reason: Reason::InternalError,
            response_tx: Ticket(1),
        },
        &mut writer,
    );
    assert!(conn.going_away);
    assert_eq!(conn.streams.active_count(), 0);
    // The frame is flushed already
    let ready = writer.take_ready();
    assert_eq!(ready.len(), 1);
    assert_eq!(&ready[0][9..], &[0, 0, 0, 0, 0, 0, 0, 2]);
    let events = conn.take_events();
    assert_eq!(events.len(), 4);
    assert!(matches!(events[0], Event::DataError { .. }));
    assert!(matches!(events[1], Event::TrailersError { .. }));
    assert!(matches!(events[2], Event::RecvClosed { .. }));
    assert!(done(&events, 1).unwrap().is_ok());
}

#[test]
fn reset_closes_the_stream() {
    let (mut conn, mut writer) = open_client(ConnExtra::default());
    conn.handle_command(
        Command::SendReset {
            stream_id: id(1),
            reason: Reason::Cancel,
            response_tx: Ticket(1),
        },
        &mut writer,
    );
    assert_eq!(
        conn.streams.get(&id(1)).unwrap().state,
        StreamState::Closed
    );
    let frames = written(&mut writer);
    assert_eq!(frames[0].0.kind, 0x3);
    assert_eq!(frames[0].1, vec![0, 0, 0, 8]);
    assert!(done(&conn.take_events(), 1).unwrap().is_ok());
}

fn poll_ready(ticket: u64) -> Command {
    Command::PollReady {
        response_tx: Ticket(ticket),
    }
}

#[test]
fn readiness_waits_for_a_free_stream() {
    let (mut conn, mut writer) = open_client(ConnExtra::default());
    conn.handle_command(poll_ready(1), &mut writer);
    assert!(done(&conn.take_events(), 1).unwrap().is_ok());

    conn.streams.set_max_concurrent_streams(1);
    for t in [2u64, 3, 4] {
        conn.handle_command(poll_ready(t), &mut writer);
    }
    assert!(conn.take_events().is_empty());
    conn.notify_ready_waiters(&[]);
    assert!(conn.take_events().is_empty());

    // The last waiter that is still there is woken, and no other
    conn.streams.set_max_concurrent_streams(2);
    conn.notify_ready_waiters(&[Ticket(4)]);
    let events = conn.take_events();
    assert_eq!(events.len(), 1);
    assert!(done(&events, 3).unwrap().is_ok());
    assert_eq!(conn.ready_waiters, vec![Ticket(2)]);

    conn.going_away = true;
    conn.handle_command(poll_ready(5), &mut writer);
    let events = conn.take_events();
    assert_eq!(
        done(&events, 5).unwrap().as_ref().unwrap_err().reason(),
        Some(Reason::RefusedStream)
    );
}

fn reserve(n: u32, amount: u32, ticket: u64) -> Command {
    Command::ReserveCapacity {
        stream_id: id(n),
        amount,
        response_tx: Ticket(ticket),
    }
}

#[test]
fn capacity_is_granted_up_to_the_windows() {
    let (mut conn, mut writer) = open_client(ConnExtra::default());
    conn.handle_command(reserve(1, 100, 1), &mut writer);
    conn.handle_command(reserve(1, 100_000, 2), &mut writer);
    conn.handle_command(reserve(9, 1, 3), &mut writer);
    let events = conn.take_events();
    assert_eq!(*granted(&events, 1).unwrap().as_ref().unwrap(), 100);
    assert_eq!(*granted(&events, 2).unwrap().as_ref().unwrap(), 65_535);
    assert_eq!(
        granted(&events, 3)
            .unwrap()
            .as_ref()
            .unwrap_err()
            .to_string(),
        "protocol error: stream not found"
    );
    conn.handle_command(send_data(1, b"", true, 4), &mut writer);
    conn.handle_command(reserve(1, 1, 5), &mut writer);
    let events = conn.take_events();
    assert_eq!(
        granted(&events, 5)
            .unwrap()
            .as_ref()
            .unwrap_err()
            .to_string(),
        "protocol error: stream is not in a sendable state"
    );
}

#[test]
fn capacity_is_granted_later() {
    let (mut conn, mut writer) = open_client(ConnExtra::default());
    conn.conn_send_flow = FlowControl::new(0);
    conn.handle_command(reserve(1, 100, 1), &mut writer);
    conn.handle_command(reserve(1, 100, 2), &mut writer);
    assert!(conn.take_events().is_empty());
    conn.fulfill_pending_capacity(&[]);
    assert!(conn.take_events().is_empty());
    assert_eq!(conn.pending_capacity.len(), 2);

    conn.handle_window_update(WindowUpdate::new(StreamId::zero(), 30))
        .unwrap();
    // Who is gone gets no answer
    conn.fulfill_pending_capacity(&[Ticket(2)]);
    let events = conn.take_events();
    assert_eq!(events.len(), 1);
    assert_eq!(*granted(&events, 1).unwrap().as_ref().unwrap(), 30);
    assert!(conn.pending_capacity.is_empty());
}

#[test]
fn target_window_grows_at_once() {
    let (mut conn, mut writer) = open_client(ConnExtra::default());
    conn.cmd_set_target_window_size(70_000, &mut writer)
        .unwrap();
    assert_eq!(conn.conn_recv_flow.window_size(), 70_000);
    let frames = written(&mut writer);
    assert_eq!(frames.len(), 1);
    assert_eq!(frames[0].0.kind, 0x8);
    assert_eq!(frames[0].0.stream_id.value(), 0);
    // 70000 - 65535
    assert_eq!(frames[0].1, vec![0, 0, 0x11, 0x71]);

    // Half of it is used up before it is given back
    conn.streams.get_mut(&id(1)).unwrap().recv_flow = FlowControl::new(100_000);
    charge(&mut conn, &mut writer, 34_999);
    conn.flush_all(&[], &mut writer);
    assert!(written(&mut writer).is_empty());
    charge(&mut conn, &mut writer, 1);
    conn.flush_all(&[], &mut writer);
    let frames = written(&mut writer);
    assert_eq!(frames.len(), 1);
    assert_eq!(frames[0].1, vec![0, 0, 0x88, 0xb8]);
    assert_eq!(conn.conn_recv_flow.window_size(), 70_000);

    let error = conn
        .cmd_set_target_window_size(0x8000_0000, &mut writer)
        .unwrap_err();
    assert!(error.is_connection());
    assert_eq!(error.reason(), Some(Reason::FlowControlError));
}

#[test]
fn target_window_shrinks_as_data_arrives() {
    let (mut conn, mut writer) = open_client(ConnExtra::default());
    conn.cmd_set_target_window_size(10_000, &mut writer)
        .unwrap();
    assert_eq!(conn.conn_recv_flow.window_size(), 65_535);
    assert!(written(&mut writer).is_empty());

    charge(&mut conn, &mut writer, 35_000);
    conn.flush_all(&[], &mut writer);
    assert!(written(&mut writer).is_empty());
    assert_eq!(conn.conn_recv_flow.window_size(), 30_535);

    charge(&mut conn, &mut writer, 25_534);
    conn.flush_all(&[], &mut writer);
    assert!(written(&mut writer).is_empty());
    assert_eq!(conn.conn_recv_flow.window_size(), 5_001);

    // It comes back to the target, and no further
    charge(&mut conn, &mut writer, 1);
    conn.flush_all(&[], &mut writer);
    let frames = written(&mut writer);
    assert_eq!(frames.len(), 1);
    assert_eq!(frames[0].0.stream_id.value(), 0);
    assert_eq!(frames[0].1, vec![0, 0, 0x13, 0x88]);
    assert_eq!(conn.conn_recv_flow.window_size(), 10_000);
    assert_eq!(conn.conn_recv_consumed, 0);
}

#[test]
fn waiters_are_refused_when_a_shutdown_starts() {
    for abrupt in [false, true] {
        let (mut conn, mut writer) = open_client(ConnExtra::default());
        conn.streams.set_max_concurrent_streams(1);
        conn.handle_command(poll_ready(1), &mut writer);
        conn.handle_command(poll_ready(2), &mut writer);
        assert!(conn.take_events().is_empty());
        let shutdown = if abrupt {
            Command::AbruptShutdown {
                reason: Reason::InternalError,
                response_tx: Ticket(3),
            }
        } else {
            Command::GoAway {
                response_tx: Ticket(3),
            }
        };
        conn.handle_command(shutdown, &mut writer);
        // A stream that ends frees no place for a new one
        conn.send_rst_stream(id(1), Reason::Cancel, &mut writer);
        conn.flush_all(&[], &mut writer);
        let events = conn.take_events();
        for t in [1, 2] {
            assert_eq!(
                done(&events, t).unwrap().as_ref().unwrap_err().reason(),
                Some(Reason::RefusedStream)
            );
        }
        assert!(conn.ready_waiters.is_empty());
    }
}

/// Whether a stream was forgotten after it was reset.
fn gone_after_reset(events: &[Event], n: u32) -> bool {
    events
        .iter()
        .find_map(|e| match e {
            Event::StreamGone { stream_id, reset } if stream_id.value() == n => Some(*reset),
            _ => None,
        })
        .unwrap()
}

#[test]
fn capacity_says_whether_the_stream_was_reset() {
    // This end reset it; that is told when the stream is forgotten
    let (mut conn, mut writer) = open_client(ConnExtra::default());
    conn.conn_send_flow = FlowControl::new(0);
    conn.handle_command(reserve(1, 1, 1), &mut writer);
    conn.send_rst_stream(id(1), Reason::Cancel, &mut writer);
    conn.handle_command(reserve(1, 1, 2), &mut writer);
    conn.flush_all(&[], &mut writer);
    assert!(!conn.streams.contains(&id(1)));
    conn.handle_command(reserve(1, 1, 3), &mut writer);
    let events = conn.take_events();
    assert!(refused_as_reset(&events, 1));
    assert!(refused_as_reset(&events, 2));
    assert!(gone_after_reset(&events, 1));
    assert!(!refused_as_reset(&events, 3));

    // The peer reset it
    let (mut conn, mut writer) = open_client(ConnExtra::default());
    conn.handle_rst_stream(RstStream::new(id(1), Reason::Cancel), 0)
        .unwrap();
    conn.handle_command(reserve(1, 1, 1), &mut writer);
    assert!(refused_as_reset(&conn.take_events(), 1));

    // An error on the stream reset it
    let (mut conn, mut writer) = open_client(ConnExtra::default());
    conn.streams.get_mut(&id(1)).unwrap().recv_flow = FlowControl::new(0);
    let data = Data::new(id(1), Bytes::from_static(b"x"));
    conn.handle_frame(Frame::Data(data), Ok(Vec::new()), 0, &mut writer)
        .unwrap();
    conn.handle_command(reserve(1, 1, 1), &mut writer);
    assert!(refused_as_reset(&conn.take_events(), 1));

    // It ended
    let (mut conn, mut writer) = open_client(ConnExtra::default());
    conn.handle_command(send_data(1, b"", true, 1), &mut writer);
    conn.handle_command(reserve(1, 1, 2), &mut writer);
    let mut end = Data::new(id(1), Bytes::new());
    end.set_end_stream();
    conn.handle_data(end, &mut writer).unwrap();
    conn.flush_all(&[], &mut writer);
    conn.handle_command(reserve(1, 1, 3), &mut writer);
    let events = conn.take_events();
    assert!(!refused_as_reset(&events, 2));
    assert!(!refused_as_reset(&events, 3));
    assert!(!gone_after_reset(&events, 1));
}

#[test]
fn data_beyond_a_window_is_refused() {
    let data = Bytes::from_static(b"abc");
    let (mut conn, mut writer) = open_client(ConnExtra::default());
    conn.conn_send_flow = FlowControl::new(2);
    let error = conn
        .cmd_send_data(id(1), &data, true, &mut writer)
        .unwrap_err();
    assert_eq!(error.reason(), Some(Reason::FlowControlError));
    assert!(written(&mut writer).is_empty());

    let (mut conn, mut writer) = open_client(ConnExtra::default());
    conn.streams.get_mut(&id(1)).unwrap().send_flow = FlowControl::new(2);
    assert!(conn
        .cmd_send_data(id(1), &data, true, &mut writer)
        .is_err());
    assert!(written(&mut writer).is_empty());
}

#[test]
fn data_is_split_at_the_peers_frame_size() {
    let (mut conn, mut writer) = open_client(ConnExtra::default());
    conn.settings.remote.max_frame_size = 16;
    let data = Bytes::from(vec![0xAA; 50]);
    conn.cmd_send_data(id(1), &data, true, &mut writer).unwrap();
    let sizes: Vec<(u32, u8)> = written(&mut writer)
        .iter()
        .map(|(h, _)| (h.length, h.flags))
        .collect();
    assert_eq!(sizes, vec![(16, 0), (16, 0), (16, 0), (2, 1)]);
}

#[test]
fn initial_window_moves_receive_windows() {
    let (mut conn, mut writer) = open_client(ConnExtra::default());
    conn.handle_command(
        Command::SetInitialWindowSize {
            size: 70_000,
            response_tx: Ticket(1),
        },
        &mut writer,
    );
    assert_eq!(conn.settings.local().initial_window_size, 70_000);
    assert_eq!(
        conn.streams.get(&id(1)).unwrap().recv_flow.window_size(),
        70_000
    );
    let frames = written(&mut writer);
    assert_eq!(frames[0].0.kind, 0x4);
    assert_eq!(frames[0].1, vec![0, 4, 0, 1, 0x11, 0x70]);
    assert!(done(&conn.take_events(), 1).unwrap().is_ok());
    let error = conn
        .cmd_set_initial_window_size(0x8000_0000, &mut writer)
        .unwrap_err();
    assert_eq!(error.reason(), Some(Reason::FlowControlError));
}

fn charge(conn: &mut ConnState, writer: &mut FrameWriter<()>, len: usize) {
    let data = Data::new(id(1), Bytes::from(vec![0u8; len]));
    conn.handle_data(data, writer).unwrap();
}

#[test]
fn connection_window_is_given_back_at_half() {
    let (mut conn, mut writer) = open_client(ConnExtra::default());
    charge(&mut conn, &mut writer, 32_766);
    conn.flush_all(&[], &mut writer);
    assert!(written(&mut writer).is_empty());
    charge(&mut conn, &mut writer, 1);
    conn.flush_all(&[], &mut writer);
    let frames = written(&mut writer);
    assert_eq!(frames.len(), 1);
    assert_eq!(frames[0].0.kind, 0x8);
    assert_eq!(frames[0].0.stream_id.value(), 0);
    assert_eq!(frames[0].1, vec![0, 0, 0x7f, 0xff]);
    assert_eq!(conn.conn_recv_consumed, 0);
    assert_eq!(conn.conn_recv_flow.window_size(), 65_535);
}

#[test]
fn stream_window_is_given_back_as_it_is_released() {
    let (mut conn, mut writer) = open_client(ConnExtra::default());
    charge(&mut conn, &mut writer, 40_000);
    conn.streams.apply_release(&id(1), 10_000);
    conn.send_stream_window_updates(&mut writer);
    assert!(written(&mut writer).is_empty());
    conn.streams.apply_release(&id(1), 30_000);
    conn.send_stream_window_updates(&mut writer);
    let frames = written(&mut writer);
    assert_eq!(frames.len(), 1);
    assert_eq!(frames[0].0.stream_id.value(), 1);
    assert_eq!(frames[0].1, vec![0, 0, 0x9c, 0x40]);
    let s = conn.streams.get(&id(1)).unwrap();
    assert_eq!(s.released, 0);
    assert_eq!(s.recv_flow.window_size(), 65_535);
}

#[test]
fn closed_streams_are_forgotten() {
    let (mut conn, mut writer) = open_client(ConnExtra::default());
    conn.streams.set_max_concurrent_streams(1);
    conn.handle_command(poll_ready(1), &mut writer);
    conn.send_rst_stream(id(1), Reason::Cancel, &mut writer);
    conn.take_events();
    conn.flush_all(&[], &mut writer);
    assert!(!conn.streams.contains(&id(1)));
    let events = conn.take_events();
    assert_eq!(events.len(), 2);
    assert!(gone_after_reset(&events, 1));
    assert!(done(&events, 1).unwrap().is_ok());
}
