use ws_reactor::arena::BufferArena;
use ws_reactor::error::WebSocketError;
use ws_reactor::registry::{is_write, Operation, OperationRegistry, PendingOperation, WRITE_BIT};

fn accept() -> PendingOperation {
    PendingOperation {
        op: Operation::Accept,
        connection: 0,
    }
}

#[test]
fn new_registry_is_empty() {
    let registry = OperationRegistry::new();
    assert_eq!(registry.len(), 0);
    assert!(!registry.is_pending(0));
    assert!(registry.has_token());
    assert!(registry.get(0).is_none());
}

#[test]
fn tokens_count_up_from_zero() {
    let mut registry = OperationRegistry::new();
    assert_eq!(registry.register(accept()).unwrap(), 0);
    assert_eq!(registry.register(accept()).unwrap(), 1);
    assert_eq!(registry.register(accept()).unwrap(), 2);
    assert_eq!(registry.len(), 3);
}

#[test]
fn live_tokens_are_never_assigned_twice() {
    let mut registry = OperationRegistry::new();
    let mut live: Vec<u64> = Vec::new();
    for round in 0..200u64 {
        let token = registry.register(accept()).unwrap();
        assert!(!live.contains(&token));
        live.push(token);
        if round % 3 == 0 {
            let gone = live.remove(0);
            assert!(registry.resolve(gone).is_ok());
        }
    }
    assert_eq!(registry.len(), live.len());
    for token in &live {
        assert!(registry.is_pending(*token));
    }
}

#[test]
fn a_resolved_token_is_not_handed_out_again() {
    let mut registry = OperationRegistry::new();
    let first = registry.register(accept()).unwrap();
    registry.resolve(first).unwrap();
    let second = registry.register(accept()).unwrap();
    assert_ne!(first, second);
}

#[test]
fn resolve_consumes_the_operation() {
    let mut arena = BufferArena::new(1);
    let mut registry = OperationRegistry::new();
    let buffer = arena.acquire(8).unwrap();
    let token = registry
        .register(PendingOperation {
            op: Operation::Read(buffer),
            connection: 42,
        })
        .unwrap();
    assert!(registry.is_pending(token));
    assert_eq!(registry.get(token).unwrap().connection, 42);
    assert_eq!(registry.buffer(token).unwrap(), &[0u8; 8]);
    let operation = registry.resolve(token).unwrap();
    assert_eq!(operation.connection, 42);
    assert!(matches!(operation.op, Operation::Read(ref b) if b.id() == 0));
    assert!(!registry.is_pending(token));
    assert!(matches!(
        registry.resolve(token),
        Err(WebSocketError::UnknownToken(t)) if t == token
    ));
}

#[test]
fn unknown_token_is_reported() {
    let mut registry = OperationRegistry::new();
    assert!(matches!(
        registry.resolve(17),
        Err(WebSocketError::UnknownToken(17))
    ));
    assert_eq!(registry.len(), 0);
}

#[test]
fn fill_writes_into_the_buffer_of_a_read() {
    let mut arena = BufferArena::new(2);
    let mut registry = OperationRegistry::new();
    let read = registry
        .register(PendingOperation {
            op: Operation::Read(arena.acquire(4).unwrap()),
            connection: 1,
        })
        .unwrap();
    let write = registry
        .register(PendingOperation {
            op: Operation::Write(arena.acquire(4).unwrap()),
            connection: 1,
        })
        .unwrap();
    let accept_token = registry.register(accept()).unwrap();
    assert_eq!(registry.fill(read, &[1, 2, 3]), Some(3));
    assert_eq!(registry.buffer(read).unwrap(), &[1, 2, 3, 0]);
    assert_eq!(registry.fill(read, &[5, 6, 7, 8, 9]), Some(4));
    assert_eq!(registry.buffer(read).unwrap(), &[5, 6, 7, 8]);
    assert_eq!(registry.fill(write, &[1]), None);
    assert_eq!(registry.buffer(write).unwrap(), &[0, 0, 0, 0]);
    assert_eq!(registry.fill(accept_token, &[1]), None);
    assert!(registry.buffer(accept_token).is_none());
    assert_eq!(registry.fill(99, &[1]), None);
    assert_eq!(registry.len(), 3);
    assert_eq!(registry.get(read).unwrap().connection, 1);
}

#[test]
fn write_tokens_carry_the_high_bit() {
    let mut arena = BufferArena::new(2);
    let mut registry = OperationRegistry::new();
    let accept_token = registry.register(accept()).unwrap();
    let read = registry
        .register(PendingOperation {
            op: Operation::Read(arena.acquire(1).unwrap()),
            connection: 1,
        })
        .unwrap();
    let write = registry
        .register(PendingOperation {
            op: Operation::Write(arena.acquire(1).unwrap()),
            connection: 1,
        })
        .unwrap();
    assert_eq!(accept_token, 0);
    assert_eq!(read, 1);
    assert_eq!(write, 2 | WRITE_BIT);
    assert_eq!(WRITE_BIT, 1u64 << 63);
    assert!(!is_write(accept_token));
    assert!(!is_write(read));
    assert!(is_write(write));
    assert!(matches!(
        registry.get(write).unwrap().op,
        Operation::Write(_)
    ));
    // The same counter value without the bit names nothing.
    assert!(!registry.is_pending(2));
    assert!(matches!(
        registry.resolve(2),
        Err(WebSocketError::UnknownToken(2))
    ));
    assert!(matches!(
        registry.resolve(write).unwrap().op,
        Operation::Write(_)
    ));
}
