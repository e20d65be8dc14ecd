use ws_reactor::echo::{
    handle_accept, handle_completion, handle_read, handle_write, EchoDecision, EchoReactor,
};
use ws_reactor::entry::Entry;
use ws_reactor::reactor::Action;
use ws_reactor::registry::is_write;
use ws_reactor::entry::SocketOpcode;

#[test]
fn accept_is_always_followed_by_another() {
    assert_eq!(
        handle_accept(7),
        EchoDecision {
            recv_on: Some(7),
            send_len: None,
            accept_again: true,
            release_buffer: false
        }
    );
    assert_eq!(
        handle_accept(-11),
        EchoDecision {
            recv_on: None,
            send_len: None,
            accept_again: true,
            release_buffer: false
        }
    );
    assert_eq!(handle_accept(0).recv_on, Some(0));
}

#[test]
fn bytes_read_are_sent_back_from_their_buffer() {
    assert_eq!(
        handle_read(5, 9),
        EchoDecision {
            recv_on: None,
            send_len: Some(5),
            accept_again: false,
            release_buffer: false
        }
    );
}

#[test]
fn end_of_stream_and_failure_give_the_buffer_up() {
    for res in [0, -1, -104] {
        assert_eq!(
            handle_read(res, 9),
            EchoDecision {
                recv_on: None,
                send_len: None,
                accept_again: false,
                release_buffer: true
            }
        );
    }
}

#[test]
fn a_send_gives_its_buffer_up_and_reads_again() {
    assert_eq!(
        handle_write(5, 9),
        EchoDecision {
            recv_on: Some(9),
            send_len: None,
            accept_again: false,
            release_buffer: true
        }
    );
    assert_eq!(handle_write(0, 9).recv_on, Some(9));
    assert_eq!(
        handle_write(-32, 9),
        EchoDecision {
            recv_on: None,
            send_len: None,
            accept_again: false,
            release_buffer: true
        }
    );
}

#[test]
fn completion_is_decided_by_the_kind_of_operation() {
    assert_eq!(handle_completion(SocketOpcode::Accept, 3, 7), handle_accept(7));
    assert_eq!(handle_completion(SocketOpcode::Recv, 9, 5), handle_read(5, 9));
    assert_eq!(handle_completion(SocketOpcode::Send, 9, 5), handle_write(5, 9));
    assert_eq!(
        handle_completion(SocketOpcode::NULL, 9, 5),
        EchoDecision {
            recv_on: None,
            send_len: None,
            accept_again: false,
            release_buffer: false
        }
    );
}

fn entries(actions: &[Action]) -> Vec<Entry> {
    actions
        .iter()
        .filter_map(|a| match a {
            Action::Submit(e) => Some(*e),
            Action::Close(_) => None,
        })
        .collect()
}

#[test]
fn echo_start_arms_the_accept() {
    let mut echo = EchoReactor::new(3, 4, 16);
    assert_eq!(
        echo.start(),
        vec![Action::Submit(Entry {
            opcode: SocketOpcode::Accept,
            fd: 3,
            len: 0,
            flags: 0,
            user_data: 0
        })]
    );
    assert_eq!(echo.pending_count(), 1);
}

#[test]
fn echo_accept_is_received_on_and_followed_by_another() {
    let mut echo = EchoReactor::new(3, 4, 16);
    echo.start();
    let actions = echo.complete(0, 9);
    assert_eq!(
        actions,
        vec![
            Action::Submit(Entry {
                opcode: SocketOpcode::Recv,
                fd: 9,
                len: 16,
                flags: 0,
                user_data: 1
            }),
            Action::Submit(Entry {
                opcode: SocketOpcode::Accept,
                fd: 3,
                len: 0,
                flags: 0,
                user_data: 2
            }),
        ]
    );
    assert!(echo.buffer_held(0));
    assert_eq!(echo.buffer(1).unwrap(), &[0u8; 16]);
    // A failed accept is followed by another and nothing else.
    let actions = echo.complete(2, -24);
    assert_eq!(entries(&actions).len(), 1);
    assert_eq!(entries(&actions)[0].opcode, SocketOpcode::Accept);
}

#[test]
fn echo_sends_back_what_was_read_from_the_same_buffer() {
    let mut echo = EchoReactor::new(3, 4, 16);
    echo.start();
    echo.complete(0, 9);
    assert_eq!(echo.receive(1, b"hello"), Some(5));
    let actions = echo.complete(1, 5);
    let send = entries(&actions)[0];
    assert_eq!(actions.len(), 1);
    assert_eq!(send.opcode, SocketOpcode::Send);
    assert_eq!(send.fd, 9);
    assert_eq!(send.len, 5);
    assert!(is_write(send.user_data));
    assert_eq!(&echo.buffer(send.user_data).unwrap()[..5], b"hello");
    // The buffer went on to the send: its slot is still held, and by one owner.
    assert!(echo.buffer_held(0));
    assert!(!echo.buffer_held(1));
    assert!(echo.buffer(1).is_none());
    // Once sent, the buffer goes back and the socket is received on again.
    let actions = echo.complete(send.user_data, 5);
    let recv = entries(&actions)[0];
    assert_eq!(recv.opcode, SocketOpcode::Recv);
    assert_eq!(recv.fd, 9);
    assert!(echo.buffer_held(0));
    assert_eq!(echo.buffer(recv.user_data).unwrap(), &[0u8; 16]);
    assert_eq!(echo.pending_count(), 2);
}

#[test]
fn echo_end_of_stream_gives_the_buffer_back() {
    let mut echo = EchoReactor::new(3, 4, 16);
    echo.start();
    echo.complete(0, 9);
    assert!(echo.buffer_held(0));
    assert_eq!(echo.complete(1, 0), vec![]);
    assert!(!echo.buffer_held(0));
    assert_eq!(echo.pending_count(), 1);
}

#[test]
fn echo_failed_send_gives_the_buffer_back_and_reads_no_more() {
    let mut echo = EchoReactor::new(3, 4, 16);
    echo.start();
    echo.complete(0, 9);
    echo.receive(1, b"abc");
    let send = entries(&echo.complete(1, 3))[0];
    assert_eq!(echo.complete(send.user_data, -32), vec![]);
    assert!(!echo.buffer_held(0));
}

#[test]
fn echo_without_a_free_buffer_closes_the_new_socket() {
    let mut echo = EchoReactor::new(3, 1, 16);
    echo.start();
    echo.complete(0, 9);
    // The only buffer is out: the next client cannot be served.
    let actions = echo.complete(2, 10);
    assert_eq!(actions[0], Action::Close(10));
    assert_eq!(entries(&actions)[0].opcode, SocketOpcode::Accept);
}

#[test]
fn echo_unknown_token_changes_nothing() {
    let mut echo = EchoReactor::new(3, 4, 16);
    echo.start();
    assert_eq!(echo.complete(77, 5), vec![]);
    assert_eq!(echo.pending_count(), 1);
    // A completion is taken once.
    echo.complete(0, -1);
    assert_eq!(echo.complete(0, -1), vec![]);
}

#[test]
fn echo_cancel_takes_the_operation_and_its_buffer_back() {
    let mut echo = EchoReactor::new(3, 4, 16);
    echo.start();
    echo.complete(0, 9);
    assert!(echo.cancel(1));
    assert!(!echo.buffer_held(0));
    assert!(echo.buffer(1).is_none());
    assert!(!echo.cancel(1));
}

#[test]
fn echo_send_is_no_longer_than_the_buffer() {
    let mut echo = EchoReactor::new(3, 4, 4);
    echo.start();
    echo.complete(0, 9);
    let send = entries(&echo.complete(1, 100))[0];
    assert_eq!(send.len, 4);
}
