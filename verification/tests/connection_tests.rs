use ws_reactor::connection::{Connection, WebSocketState, DEFAULT_PING_TIMEOUT_MS};
use ws_reactor::error::WebSocketError;
use ws_reactor::frame::mask;

const REQUEST: &str = "GET /chat HTTP/1.1\r\nHost: server.example.com\r\nUpgrade: websocket\r\nConnection: Upgrade\r\nSec-WebSocket-Key: dGhlIHNhbXBsZSBub25jZQ==\r\nSec-WebSocket-Version: 13\r\n\r\n";

const RESPONSE: &str = "HTTP/1.1 101 Switching Protocols\r\nUpgrade: websocket\r\nConnection: Upgrade\r\nSec-WebSocket-Accept: s3pPLMBiTxaQ9kYGzzhZRbK+xOo=\r\n\r\n";

fn client_frame(opcode: u8, payload: &[u8]) -> Vec<u8> {
    let key = [0xa1, 0xb2, 0xc3, 0xd4];
    let mut out = vec![0x80 | opcode, 0x80 | payload.len() as u8];
    out.extend_from_slice(&key);
    out.extend_from_slice(&mask(payload, &key));
    out
}

fn connected(now: u64) -> Connection {
    let mut c = Connection::new(7, now);
    c.on_read(REQUEST.as_bytes(), now).unwrap();
    let n = c.outbound().len();
    c.take_outbound(n);
    c
}

#[test]
fn new_connection_awaits_its_handshake() {
    let c = Connection::new(7, 1000);
    assert_eq!(c.fd(), 7);
    assert_eq!(c.state(), WebSocketState::Handshake);
    assert!(!c.has_outbound());
    assert!(!c.pong_pending());
    assert_eq!(c.last_ping(), 1000);
    assert_eq!(DEFAULT_PING_TIMEOUT_MS, 10_000);
}

#[test]
fn handshake_queues_response_and_first_ping() {
    let mut c = Connection::new(7, 1000);
    c.on_read(REQUEST.as_bytes(), 2500).unwrap();
    assert_eq!(c.state(), WebSocketState::Connected);
    let mut expected = RESPONSE.as_bytes().to_vec();
    expected.extend_from_slice(&[0x89, 0x00]);
    assert_eq!(c.outbound(), &expected[..]);
    assert!(c.pong_pending());
    assert_eq!(c.last_ping(), 2500);
}

#[test]
fn handshake_refuses_a_request_that_is_no_get() {
    let mut c = Connection::new(7, 0);
    let r = c.on_read(b"POST / HTTP/1.1\r\nSec-WebSocket-Key: abc\r\n\r\n", 0);
    assert!(matches!(r, Err(WebSocketError::NonGetRequest)));
    assert_eq!(c.state(), WebSocketState::Handshake);
    assert!(!c.has_outbound());
}

#[test]
fn handshake_refuses_a_request_without_key() {
    let mut c = Connection::new(7, 0);
    let r = c.on_read(b"GET / HTTP/1.1\r\nHost: x\r\n\r\n", 0);
    match r {
        Err(WebSocketError::HandshakeError(m)) => {
            assert_eq!(m, "Could not find Sec-WebSocket-Key in HTTP request header")
        }
        other => panic!("expected a handshake error, got {:?}", other),
    }
    assert_eq!(c.state(), WebSocketState::Handshake);
    assert!(!c.has_outbound());
    assert!(!c.pong_pending());
}

#[test]
fn handshake_refuses_bytes_that_are_no_text() {
    let mut c = Connection::new(7, 0);
    let r = c.on_read(&[b'G', b'E', b'T', b' ', 0xff, 0xfe], 0);
    assert!(matches!(r, Err(WebSocketError::Utf8Error(_))));
    assert_eq!(c.state(), WebSocketState::Handshake);
}

#[test]
fn text_is_echoed() {
    let mut c = connected(0);
    c.on_read(&client_frame(0x1, b"ping"), 10).unwrap();
    assert_eq!(c.outbound(), &[0x81, 0x04, b'p', b'i', b'n', b'g']);
    assert_eq!(c.state(), WebSocketState::Connected);
}

#[test]
fn text_that_is_no_utf8_is_an_error_and_changes_nothing() {
    let mut c = connected(0);
    let r = c.on_read(&client_frame(0x1, &[0xc3, 0x28]), 10);
    assert!(matches!(r, Err(WebSocketError::Utf8Error(_))));
    assert_eq!(c.state(), WebSocketState::Connected);
    assert!(!c.has_outbound());
    assert!(c.pong_pending());
    assert_eq!(c.last_ping(), 0);
}

#[test]
fn binary_is_taken_without_answer() {
    let mut c = connected(0);
    c.on_read(&client_frame(0x2, &[0xff, 0x00, 0x80]), 10).unwrap();
    assert!(!c.has_outbound());
    assert_eq!(c.state(), WebSocketState::Connected);
}

#[test]
fn ping_is_answered_with_pong() {
    let mut c = connected(0);
    c.on_read(&client_frame(0x9, b""), 10).unwrap();
    assert_eq!(c.outbound(), &[0x8A, 0x00]);
}

#[test]
fn pong_clears_the_pending_flag() {
    let mut c = connected(0);
    assert!(c.pong_pending());
    c.on_read(&client_frame(0xA, b""), 10).unwrap();
    assert!(!c.pong_pending());
    assert!(!c.has_outbound());
}

#[test]
fn close_frame_closes() {
    let mut c = connected(0);
    c.on_read(&client_frame(0x8, b""), 10).unwrap();
    assert_eq!(c.state(), WebSocketState::Closed);
    assert!(c.is_closed());
}

#[test]
fn malformed_frame_is_an_error_and_changes_nothing() {
    let mut c = connected(7);
    let r = c.on_read(&[0x81, 0x04, b'p', b'i', b'n', b'g'], 10);
    match r {
        Err(WebSocketError::ProtocolError(m)) => assert_eq!(m, "must be masked"),
        other => panic!("expected a protocol error, got {:?}", other),
    }
    assert_eq!(c.state(), WebSocketState::Connected);
    assert!(!c.has_outbound());
    assert!(c.pong_pending());
    assert_eq!(c.last_ping(), 7);
}

#[test]
fn process_frame_leaves_the_connection_alone_on_each_fault() {
    let rejected: [&[u8]; 5] = [
        &[0x81],
        &[0x83, 0x80, 0, 0, 0, 0],
        &[0x81, 0x00],
        &[0x81, 0xFF, 0, 0, 0, 0],
        &[0x81, 0x85, 1, 2, 3, 4, 5],
    ];
    for bytes in rejected {
        let mut c = connected(3);
        c.send_ping();
        assert!(matches!(
            c.process_frame(bytes),
            Err(WebSocketError::ProtocolError(_))
        ));
        assert_eq!(c.state(), WebSocketState::Connected);
        assert_eq!(c.outbound(), &[0x89, 0x00]);
        assert!(c.pong_pending());
        assert_eq!(c.last_ping(), 3);
    }
}

#[test]
fn only_a_close_frame_closes() {
    for (opcode, payload) in [(0x1u8, &b"hi"[..]), (0x2, &[0xff][..]), (0x9, &[][..]), (0xA, &[][..])] {
        let mut c = connected(0);
        c.process_frame(&client_frame(opcode, payload)).unwrap();
        assert_eq!(c.state(), WebSocketState::Connected);
    }
    let mut c = connected(0);
    assert_eq!(c.process_frame(&client_frame(0x8, b"")).unwrap(), 6);
    assert_eq!(c.state(), WebSocketState::Closed);
}

#[test]
fn several_frames_in_one_read_are_handled_in_order() {
    let mut c = connected(0);
    let mut data = client_frame(0x1, b"one");
    data.extend_from_slice(&client_frame(0x9, b""));
    data.extend_from_slice(&client_frame(0x1, b"two"));
    c.on_read(&data, 10).unwrap();
    assert_eq!(
        c.outbound(),
        &[0x81, 3, b'o', b'n', b'e', 0x8A, 0x00, 0x81, 3, b't', b'w', b'o']
    );
}

#[test]
fn frames_behind_a_close_are_not_read() {
    let mut c = connected(0);
    let mut data = client_frame(0x8, b"");
    data.extend_from_slice(&client_frame(0x1, b"late"));
    c.on_read(&data, 10).unwrap();
    assert_eq!(c.state(), WebSocketState::Closed);
    assert!(!c.has_outbound());
}

#[test]
fn frame_cut_short_behind_a_whole_one_is_an_error() {
    let mut c = connected(0);
    let mut data = client_frame(0x1, b"one");
    data.extend_from_slice(&[0x81]);
    let r = c.on_read(&data, 10);
    match r {
        Err(WebSocketError::ProtocolError(m)) => assert_eq!(m, "too short"),
        other => panic!("expected a protocol error, got {:?}", other),
    }
    assert_eq!(c.outbound(), &[0x81, 3, b'o', b'n', b'e']);
    assert_eq!(c.state(), WebSocketState::Connected);
}

#[test]
fn process_frame_gives_the_length_of_the_frame() {
    let mut c = connected(0);
    let mut data = client_frame(0x1, b"abc");
    data.extend_from_slice(&[1, 2, 3]);
    assert_eq!(c.process_frame(&data).unwrap(), 9);
    assert_eq!(c.outbound(), &[0x81, 3, b'a', b'b', b'c']);
}

#[test]
fn nothing_leaves_the_closed_state() {
    let mut c = connected(0);
    c.close();
    c.on_read(REQUEST.as_bytes(), 100).unwrap();
    assert_eq!(c.state(), WebSocketState::Closed);
    c.on_read(&client_frame(0x1, b"ping"), 100).unwrap();
    assert_eq!(c.state(), WebSocketState::Closed);
    assert!(!c.has_outbound());
    c.check_ping_timeout(1_000_000).unwrap();
    assert_eq!(c.state(), WebSocketState::Closed);
    assert!(!c.has_outbound());
}

#[test]
fn keepalive_waits_for_the_interval() {
    let mut c = connected(1000);
    c.check_ping_timeout(1000).unwrap();
    c.check_ping_timeout(11_000).unwrap();
    assert_eq!(c.state(), WebSocketState::Connected);
    assert!(!c.has_outbound());
    assert_eq!(c.last_ping(), 1000);
}

#[test]
fn keepalive_reports_a_peer_that_sent_no_pong() {
    let mut c = connected(1000);
    let r = c.check_ping_timeout(11_001);
    match r {
        Err(WebSocketError::HandshakeError(m)) => assert_eq!(m, "Pong not received"),
        other => panic!("expected a timeout, got {:?}", other),
    }
    // No new Ping is queued and nothing else changes.
    assert_eq!(c.state(), WebSocketState::Connected);
    assert!(!c.has_outbound());
    assert!(c.pong_pending());
    assert_eq!(c.last_ping(), 1000);
}

#[test]
fn keepalive_pings_a_peer_that_answered() {
    let mut c = connected(1000);
    c.on_read(&client_frame(0xA, b""), 2000).unwrap();
    c.check_ping_timeout(11_001).unwrap();
    assert_eq!(c.state(), WebSocketState::Connected);
    assert_eq!(c.outbound(), &[0x89, 0x00]);
    assert!(c.pong_pending());
    assert_eq!(c.last_ping(), 11_001);
    // No Pong to the second Ping: the next interval ends the connection.
    assert!(c.check_ping_timeout(21_001).is_ok());
    assert!(c.check_ping_timeout(21_002).is_err());
    assert_eq!(c.outbound(), &[0x89, 0x00]);
}

#[test]
fn keepalive_follows_the_configured_interval() {
    let mut c = connected(0);
    c.set_ping_timeout(50);
    assert!(c.check_ping_timeout(50).is_ok());
    assert!(c.check_ping_timeout(51).is_err());
}

#[test]
fn keepalive_is_not_checked_before_the_handshake() {
    let mut c = Connection::new(3, 0);
    c.check_ping_timeout(1_000_000).unwrap();
    assert_eq!(c.state(), WebSocketState::Handshake);
    assert!(!c.has_outbound());
}

#[test]
fn keepalive_with_a_clock_that_went_back() {
    let mut c = connected(5000);
    c.check_ping_timeout(10).unwrap();
    assert_eq!(c.state(), WebSocketState::Connected);
}

#[test]
fn take_outbound_takes_from_the_front() {
    let mut c = connected(0);
    c.send_text(b"hello").unwrap();
    assert_eq!(c.take_outbound(3), vec![0x81, 5, b'h']);
    assert_eq!(c.outbound(), b"ello");
    assert_eq!(c.take_outbound(100), b"ello".to_vec());
    assert!(!c.has_outbound());
    assert_eq!(c.take_outbound(4), Vec::<u8>::new());
}

#[test]
fn requeue_puts_bytes_in_front() {
    let mut c = connected(0);
    c.send_ping();
    c.requeue(&[1, 2, 3]);
    assert_eq!(c.outbound(), &[1, 2, 3, 0x89, 0x00]);
}

#[test]
fn send_text_refuses_more_than_65535_bytes() {
    let mut c = connected(0);
    assert!(matches!(
        c.send_text(&vec![b'a'; 65536]),
        Err(WebSocketError::ProtocolError(_))
    ));
    assert!(!c.has_outbound());
    assert!(c.send_text(&vec![b'a'; 65535]).is_ok());
    assert_eq!(c.outbound().len(), 65539);
}
