use ws_reactor::connection::WebSocketState;
use ws_reactor::entry::{Entry, SocketOpcode};
use ws_reactor::error::WebSocketError;
use ws_reactor::frame::mask;
use ws_reactor::reactor::{Action, Reactor};
use ws_reactor::registry::is_write;

const LISTENER_FD: i32 = 3;

const REQUEST: &str = "GET /chat HTTP/1.1\r\nHost: server.example.com\r\nUpgrade: websocket\r\nConnection: Upgrade\r\nSec-WebSocket-Key: dGhlIHNhbXBsZSBub25jZQ==\r\nSec-WebSocket-Version: 13\r\n\r\n";

const RESPONSE: &str = "HTTP/1.1 101 Switching Protocols\r\nUpgrade: websocket\r\nConnection: Upgrade\r\nSec-WebSocket-Accept: s3pPLMBiTxaQ9kYGzzhZRbK+xOo=\r\n\r\n";

fn client_frame(opcode: u8, payload: &[u8]) -> Vec<u8> {
    let key = [0x11, 0x22, 0x33, 0x44];
    let mut out = vec![0x80 | opcode, 0x80 | payload.len() as u8];
    out.extend_from_slice(&key);
    out.extend_from_slice(&mask(payload, &key));
    out
}

fn submitted(actions: &[Action]) -> Vec<Entry> {
    actions
        .iter()
        .filter_map(|a| match a {
            Action::Submit(e) => Some(*e),
            Action::Close(_) => None,
        })
        .collect()
}

fn only(actions: &[Action], opcode: SocketOpcode) -> Entry {
    let found: Vec<Entry> = submitted(actions)
        .into_iter()
        .filter(|e| e.opcode == opcode)
        .collect();
    assert_eq!(found.len(), 1, "{:?}", actions);
    found[0]
}

/// A reactor with one accepted connection on socket 9 whose first read is in flight.
fn with_connection(buffers: usize) -> (Reactor, u64) {
    let mut reactor = Reactor::new(LISTENER_FD, buffers, 2048);
    let actions = reactor.schedule(0);
    let accept = only(&actions, SocketOpcode::Accept);
    let outcome = reactor.handle_completion(accept.user_data, 9, 0);
    assert!(outcome.close.is_none() && outcome.error.is_none());
    let actions = reactor.schedule(0);
    let read = only(&actions, SocketOpcode::Recv);
    assert_eq!(read.fd, 9);
    (reactor, read.user_data)
}

/// The same, with the handshake done and its response written.
fn with_client(buffers: usize) -> (Reactor, Vec<u64>) {
    let (mut reactor, read) = with_connection(buffers);
    let n = reactor.receive(read, REQUEST.as_bytes()).unwrap();
    reactor.handle_completion(read, n as i32, 0);
    let actions = reactor.schedule(0);
    let write = only(&actions, SocketOpcode::Send);
    let read = only(&actions, SocketOpcode::Recv);
    reactor.handle_completion(write.user_data, write.len as i32, 0);
    let actions = reactor.schedule(0);
    let second = only(&actions, SocketOpcode::Recv);
    (reactor, vec![read.user_data, second.user_data])
}

#[test]
fn first_schedule_arms_the_accept() {
    let mut reactor = Reactor::new(LISTENER_FD, 4, 2048);
    let actions = reactor.schedule(0);
    assert_eq!(
        actions,
        vec![Action::Submit(Entry {
            opcode: SocketOpcode::Accept,
            fd: LISTENER_FD,
            len: 0,
            flags: 0,
            user_data: 0
        })]
    );
    assert!(reactor.is_pending(0));
    assert_eq!(reactor.pending_count(), 1);
    // One accept is enough: nothing more to do.
    assert_eq!(reactor.schedule(1), vec![]);
}

#[test]
fn accept_completion_creates_a_connection_and_rearms() {
    let mut reactor = Reactor::new(LISTENER_FD, 4, 2048);
    reactor.schedule(0);
    let outcome = reactor.handle_completion(0, 9, 5);
    assert!(outcome.close.is_none());
    assert!(outcome.error.is_none());
    assert_eq!(reactor.connection_count(), 1);
    assert_eq!(reactor.state_of(9), Some(WebSocketState::Handshake));
    assert!(!reactor.is_pending(0));
    let actions = reactor.schedule(5);
    assert_eq!(
        actions,
        vec![
            Action::Submit(Entry {
                opcode: SocketOpcode::Accept,
                fd: LISTENER_FD,
                len: 0,
                flags: 0,
                user_data: 1
            }),
            Action::Submit(Entry {
                opcode: SocketOpcode::Recv,
                fd: 9,
                len: 2048,
                flags: 0,
                user_data: 2
            }),
        ]
    );
    assert_eq!(reactor.buffer(2).unwrap().len(), 2048);
    assert!(reactor.buffer_held(0));
}

#[test]
fn failed_accept_is_reported_and_rearmed() {
    let mut reactor = Reactor::new(LISTENER_FD, 4, 2048);
    reactor.schedule(0);
    let outcome = reactor.handle_completion(0, -11, 0);
    assert!(outcome.close.is_none());
    assert!(matches!(outcome.error, Some(WebSocketError::IoError(-11))));
    assert_eq!(reactor.connection_count(), 0);
    let actions = reactor.schedule(0);
    assert_eq!(only(&actions, SocketOpcode::Accept).user_data, 1);
}

#[test]
fn unknown_token_changes_nothing() {
    let (mut reactor, read) = with_connection(4);
    let outcome = reactor.handle_completion(999, 5, 0);
    assert!(outcome.close.is_none());
    assert!(matches!(
        outcome.error,
        Some(WebSocketError::UnknownToken(999))
    ));
    assert_eq!(reactor.connection_count(), 1);
    assert!(reactor.is_pending(read));
    // A completion is taken once: the second is unknown.
    reactor.handle_completion(read, 0, 0);
    let again = reactor.handle_completion(read, 0, 0);
    assert!(matches!(
        again.error,
        Some(WebSocketError::UnknownToken(t)) if t == read
    ));
}

#[test]
fn end_to_end_echo_and_close() {
    let (mut reactor, read) = with_connection(4);

    // The client's handshake arrives.
    let n = reactor.receive(read, REQUEST.as_bytes()).unwrap();
    assert_eq!(n, REQUEST.len());
    let outcome = reactor.handle_completion(read, n as i32, 100);
    assert!(outcome.close.is_none() && outcome.error.is_none());
    assert_eq!(reactor.state_of(9), Some(WebSocketState::Connected));
    assert!(!reactor.buffer_held(0));

    // The response goes out, byte for byte, with the first Ping behind it.
    let actions = reactor.schedule(100);
    let write = only(&actions, SocketOpcode::Send);
    let next_read = only(&actions, SocketOpcode::Recv);
    let mut expected = RESPONSE.as_bytes().to_vec();
    expected.extend_from_slice(&[0x89, 0x00]);
    assert_eq!(write.fd, 9);
    assert_eq!(write.len, expected.len());
    assert_eq!(reactor.buffer(write.user_data).unwrap(), &expected[..]);
    let outcome = reactor.handle_completion(write.user_data, write.len as i32, 110);
    assert!(outcome.close.is_none() && outcome.error.is_none());

    // The client sends the masked text "ping".
    let frame = client_frame(0x1, b"ping");
    let n = reactor.receive(next_read.user_data, &frame).unwrap();
    let outcome = reactor.handle_completion(next_read.user_data, n as i32, 120);
    assert!(outcome.close.is_none() && outcome.error.is_none());

    // The server echoes it unmasked.
    let actions = reactor.schedule(120);
    let echo = only(&actions, SocketOpcode::Send);
    assert_eq!(
        reactor.buffer(echo.user_data).unwrap(),
        &[0x81, 0x04, b'p', b'i', b'n', b'g']
    );
    let reads: Vec<Entry> = submitted(&actions)
        .into_iter()
        .filter(|e| e.opcode == SocketOpcode::Recv)
        .collect();
    assert_eq!(reads.len(), 1);
    reactor.handle_completion(echo.user_data, 6, 130);

    // The client sends Close: the connection is closed and its socket released.
    let close = client_frame(0x8, b"");
    let n = reactor.receive(reads[0].user_data, &close).unwrap();
    let outcome = reactor.handle_completion(reads[0].user_data, n as i32, 140);
    assert_eq!(outcome.close, Some(9));
    assert!(outcome.error.is_none());
    assert_eq!(reactor.connection_count(), 0);
    assert_eq!(reactor.state_of(9), None);

    // Nothing more is issued for it.
    let actions = reactor.schedule(150);
    assert!(submitted(&actions).iter().all(|e| e.fd != 9));
}

#[test]
fn keepalive_disconnects_a_silent_client() {
    let (mut reactor, _reads) = with_client(8);
    assert_eq!(reactor.state_of(9), Some(WebSocketState::Connected));
    // Within the interval nothing happens.
    let actions = reactor.schedule(10_000);
    assert!(!actions.contains(&Action::Close(9)));
    assert_eq!(reactor.connection_count(), 1);
    // Past it, with no Pong to the first Ping, the connection goes.
    let actions = reactor.schedule(10_001);
    assert_eq!(actions, vec![Action::Close(9)]);
    assert_eq!(reactor.connection_count(), 0);
}

#[test]
fn keepalive_pings_a_client_that_answers() {
    let (mut reactor, reads) = with_client(8);
    let pong = client_frame(0xA, b"");
    let n = reactor.receive(reads[0], &pong).unwrap();
    reactor.handle_completion(reads[0], n as i32, 500);
    let actions = reactor.schedule(10_001);
    let ping = only(&actions, SocketOpcode::Send);
    assert_eq!(reactor.buffer(ping.user_data).unwrap(), &[0x89, 0x00]);
    assert_eq!(reactor.state_of(9), Some(WebSocketState::Connected));
    // The next interval passes without a Pong.
    let actions = reactor.schedule(20_002);
    assert!(actions.contains(&Action::Close(9)));
}

#[test]
fn reactor_keepalive_follows_the_configured_interval() {
    let mut reactor = Reactor::new(LISTENER_FD, 4, 2048);
    reactor.set_ping_timeout(200);
    let actions = reactor.schedule(0);
    reactor.handle_completion(only(&actions, SocketOpcode::Accept).user_data, 9, 0);
    let actions = reactor.schedule(0);
    let read = only(&actions, SocketOpcode::Recv);
    let n = reactor.receive(read.user_data, REQUEST.as_bytes()).unwrap();
    reactor.handle_completion(read.user_data, n as i32, 1000);
    assert!(!reactor.schedule(1200).contains(&Action::Close(9)));
    assert!(reactor.schedule(1201).contains(&Action::Close(9)));
}

#[test]
fn zero_length_read_takes_the_connection_down() {
    let (mut reactor, read) = with_connection(4);
    let outcome = reactor.handle_completion(read, 0, 0);
    assert_eq!(outcome.close, Some(9));
    assert!(outcome.error.is_none());
    assert_eq!(reactor.connection_count(), 0);
    assert!(!reactor.buffer_held(0));
}

#[test]
fn failed_read_takes_the_connection_down() {
    let (mut reactor, read) = with_connection(4);
    let outcome = reactor.handle_completion(read, -104, 0);
    assert_eq!(outcome.close, Some(9));
    assert!(matches!(outcome.error, Some(WebSocketError::IoError(-104))));
    assert_eq!(reactor.connection_count(), 0);
    assert!(!reactor.buffer_held(0));
}

#[test]
fn failed_write_takes_the_connection_down() {
    let (mut reactor, read) = with_connection(4);
    let n = reactor.receive(read, REQUEST.as_bytes()).unwrap();
    reactor.handle_completion(read, n as i32, 0);
    let actions = reactor.schedule(0);
    let write = only(&actions, SocketOpcode::Send);
    let outcome = reactor.handle_completion(write.user_data, -32, 0);
    assert_eq!(outcome.close, Some(9));
    assert!(matches!(outcome.error, Some(WebSocketError::IoError(-32))));
    assert_eq!(reactor.connection_count(), 0);
}

#[test]
fn failed_handshake_takes_the_connection_down() {
    let (mut reactor, read) = with_connection(4);
    let n = reactor.receive(read, b"POST / HTTP/1.1\r\n\r\n").unwrap();
    let outcome = reactor.handle_completion(read, n as i32, 0);
    assert_eq!(outcome.close, Some(9));
    assert!(matches!(outcome.error, Some(WebSocketError::NonGetRequest)));
    assert_eq!(reactor.connection_count(), 0);
}

#[test]
fn malformed_frame_takes_only_its_connection_down() {
    let (mut reactor, reads) = with_client(8);
    // A second client connects.
    let actions = reactor.schedule(0);
    assert!(submitted(&actions).is_empty());
    let accept = (0..20u64)
        .find(|t| reactor.is_pending(*t) && reactor.buffer(*t).is_none())
        .unwrap();
    reactor.handle_completion(accept, 12, 0);
    reactor.schedule(0);
    assert_eq!(reactor.connection_count(), 2);
    // The first sends an unmasked frame.
    let n = reactor
        .receive(reads[0], &[0x81, 0x02, b'h', b'i'])
        .unwrap();
    let outcome = reactor.handle_completion(reads[0], n as i32, 0);
    assert_eq!(outcome.close, Some(9));
    assert!(matches!(
        outcome.error,
        Some(WebSocketError::ProtocolError(ref m)) if m == "must be masked"
    ));
    assert_eq!(reactor.connection_count(), 1);
    assert_eq!(reactor.state_of(12), Some(WebSocketState::Handshake));
}

#[test]
fn completion_of_a_connection_that_is_gone_frees_its_buffer() {
    let (mut reactor, reads) = with_client(8);
    let held_before: Vec<usize> = (0..8).filter(|i| reactor.buffer_held(*i)).collect();
    assert_eq!(held_before.len(), 2);
    let outcome = reactor.handle_completion(reads[0], 0, 0);
    assert_eq!(outcome.close, Some(9));
    // The second read of the same connection completes later.
    let outcome = reactor.handle_completion(reads[1], -125, 0);
    assert!(outcome.close.is_none());
    assert!(outcome.error.is_none());
    assert!((0..8).all(|i| !reactor.buffer_held(i)));
}

#[test]
fn exhausted_arena_defers_the_read() {
    let mut reactor = Reactor::new(LISTENER_FD, 1, 64);
    let actions = reactor.schedule(0);
    reactor.handle_completion(only(&actions, SocketOpcode::Accept).user_data, 9, 0);
    let actions = reactor.schedule(0);
    let first = only(&actions, SocketOpcode::Recv);
    // A second connection finds no buffer.
    let accept = only(&actions, SocketOpcode::Accept);
    reactor.handle_completion(accept.user_data, 10, 0);
    let actions = reactor.schedule(0);
    assert!(submitted(&actions)
        .iter()
        .all(|e| e.opcode == SocketOpcode::Accept));
    assert_eq!(reactor.connection_count(), 2);
    // Once the first read is done with its buffer, the next call issues reads again.
    reactor.handle_completion(first.user_data, 0, 0);
    let actions = reactor.schedule(0);
    let read = only(&actions, SocketOpcode::Recv);
    assert_eq!(read.fd, 10);
}

#[test]
fn writes_take_one_buffer_of_bytes_at_a_time() {
    let mut reactor = Reactor::new(LISTENER_FD, 4, 64);
    let actions = reactor.schedule(0);
    reactor.handle_completion(only(&actions, SocketOpcode::Accept).user_data, 9, 0);
    let actions = reactor.schedule(0);
    let read = only(&actions, SocketOpcode::Recv);
    // The request is longer than one buffer: it arrives cut to 64 bytes and fails.
    let n = reactor.receive(read.user_data, REQUEST.as_bytes()).unwrap();
    assert_eq!(n, 64);
    let outcome = reactor.handle_completion(read.user_data, 64, 0);
    assert_eq!(outcome.close, Some(9));
}

#[test]
fn long_response_is_written_in_pieces() {
    let mut reactor = Reactor::new(LISTENER_FD, 4, 100);
    let actions = reactor.schedule(0);
    reactor.handle_completion(only(&actions, SocketOpcode::Accept).user_data, 9, 0);
    let actions = reactor.schedule(0);
    let read = only(&actions, SocketOpcode::Recv);
    let short = "GET / HTTP/1.1\r\nSec-WebSocket-Key: dGhlIHNhbXBsZSBub25jZQ==\r\n\r\n";
    let n = reactor.receive(read.user_data, short.as_bytes()).unwrap();
    reactor.handle_completion(read.user_data, n as i32, 0);
    let mut expected = RESPONSE.as_bytes().to_vec();
    expected.extend_from_slice(&[0x89, 0x00]);
    let mut sent = Vec::new();
    let mut rounds = 0;
    while sent.len() < expected.len() {
        let actions = reactor.schedule(0);
        let write = only(&actions, SocketOpcode::Send);
        assert!(write.len <= 100);
        sent.extend_from_slice(reactor.buffer(write.user_data).unwrap());
        reactor.handle_completion(write.user_data, write.len as i32, 0);
        rounds += 1;
    }
    assert_eq!(sent, expected);
    assert_eq!(rounds, 2);
}

#[test]
fn cancel_puts_a_read_back() {
    let (mut reactor, read) = with_connection(4);
    assert!(reactor.buffer_held(0));
    assert!(reactor.cancel(read));
    assert!(!reactor.is_pending(read));
    assert!(!reactor.buffer_held(0));
    let actions = reactor.schedule(0);
    let again = only(&actions, SocketOpcode::Recv);
    assert_ne!(again.user_data, read);
    assert_eq!(again.fd, 9);
    assert!(!reactor.cancel(read));
}

#[test]
fn cancel_puts_a_write_back_in_front() {
    let (mut reactor, read) = with_connection(4);
    let n = reactor.receive(read, REQUEST.as_bytes()).unwrap();
    reactor.handle_completion(read, n as i32, 0);
    let actions = reactor.schedule(0);
    let write = only(&actions, SocketOpcode::Send);
    let bytes = reactor.buffer(write.user_data).unwrap().to_vec();
    assert!(reactor.cancel(write.user_data));
    let actions = reactor.schedule(0);
    let again = only(&actions, SocketOpcode::Send);
    assert_eq!(reactor.buffer(again.user_data).unwrap(), &bytes[..]);
}

#[test]
fn cancel_puts_the_accept_back() {
    let mut reactor = Reactor::new(LISTENER_FD, 4, 2048);
    let actions = reactor.schedule(0);
    let accept = only(&actions, SocketOpcode::Accept);
    assert!(reactor.cancel(accept.user_data));
    let actions = reactor.schedule(0);
    assert_eq!(only(&actions, SocketOpcode::Accept).user_data, 1);
}

#[test]
fn receive_into_something_that_is_no_read() {
    let mut reactor = Reactor::new(LISTENER_FD, 4, 2048);
    reactor.schedule(0);
    assert_eq!(reactor.receive(0, b"abc"), None);
    assert_eq!(reactor.receive(5, b"abc"), None);
    assert!(reactor.buffer(0).is_none());
}

#[test]
fn a_reactor_without_buffer_size_issues_no_reads() {
    let mut reactor = Reactor::new(LISTENER_FD, 4, 0);
    let actions = reactor.schedule(0);
    reactor.handle_completion(only(&actions, SocketOpcode::Accept).user_data, 9, 0);
    let actions = reactor.schedule(0);
    assert!(submitted(&actions)
        .iter()
        .all(|e| e.opcode == SocketOpcode::Accept));
}

#[test]
fn a_completion_is_classified_by_its_token() {
    let (mut reactor, read) = with_connection(4);
    assert!(!is_write(read));
    let n = reactor.receive(read, REQUEST.as_bytes()).unwrap();
    reactor.handle_completion(read, n as i32, 0);
    let actions = reactor.schedule(0);
    for entry in submitted(&actions) {
        assert_eq!(is_write(entry.user_data), entry.opcode == SocketOpcode::Send);
    }
    assert!(is_write(only(&actions, SocketOpcode::Send).user_data));
}

#[test]
fn tokens_in_flight_are_all_different() {
    let mut reactor = Reactor::new(LISTENER_FD, 64, 256);
    let mut live: Vec<u64> = Vec::new();
    let mut fd = 10;
    for round in 0..40 {
        for entry in submitted(&reactor.schedule(0)) {
            assert!(!live.contains(&entry.user_data), "round {}", round);
            assert!(reactor.is_pending(entry.user_data));
            live.push(entry.user_data);
        }
        // Complete the oldest operation: an accept brings a client, a read its request.
        let token = live.remove(0);
        let is_accept = reactor.buffer(token).is_none();
        if is_accept {
            reactor.handle_completion(token, fd, 0);
            fd += 1;
        } else if is_write(token) {
            let n = reactor.buffer(token).unwrap().len();
            reactor.handle_completion(token, n as i32, 0);
        } else {
            let n = reactor.receive(token, REQUEST.as_bytes()).unwrap_or(0);
            reactor.handle_completion(token, n as i32, 0);
        }
        assert!(!reactor.is_pending(token));
    }
    assert_eq!(reactor.pending_count(), live.len());
}

#[test]
fn bytes_that_a_write_did_not_send_go_out_next() {
    let (mut reactor, read) = with_connection(4);
    let n = reactor.receive(read, REQUEST.as_bytes()).unwrap();
    reactor.handle_completion(read, n as i32, 0);
    let actions = reactor.schedule(0);
    let write = only(&actions, SocketOpcode::Send);
    let all = reactor.buffer(write.user_data).unwrap().to_vec();
    // Only the first ten bytes went out.
    let outcome = reactor.handle_completion(write.user_data, 10, 0);
    assert!(outcome.close.is_none() && outcome.error.is_none());
    let actions = reactor.schedule(0);
    let rest = only(&actions, SocketOpcode::Send);
    assert_eq!(reactor.buffer(rest.user_data).unwrap(), &all[10..]);
    assert_eq!(rest.len, all.len() - 10);
}

#[test]
fn a_write_that_sent_nothing_is_tried_again() {
    let (mut reactor, read) = with_connection(4);
    let n = reactor.receive(read, REQUEST.as_bytes()).unwrap();
    reactor.handle_completion(read, n as i32, 0);
    let actions = reactor.schedule(0);
    let write = only(&actions, SocketOpcode::Send);
    let all = reactor.buffer(write.user_data).unwrap().to_vec();
    let outcome = reactor.handle_completion(write.user_data, 0, 0);
    assert!(outcome.close.is_none() && outcome.error.is_none());
    assert_eq!(reactor.connection_count(), 1);
    let actions = reactor.schedule(0);
    let again = only(&actions, SocketOpcode::Send);
    assert_eq!(reactor.buffer(again.user_data).unwrap(), &all[..]);
    assert_eq!(only(&actions, SocketOpcode::Recv).fd, 9);
}
