//! The operation registry: which operations are in flight, each under the
//! token that its completion will name.
//!
//! A token is a counter's value, and for a write that value with the high bit
//! set: whether a completion is that of a write shows in its token alone.

use std::collections::HashMap;
use vstd::prelude::*;
use vstd::std_specs::hash::group_hash_axioms;
use crate::arena::{Buffer, BufferView, filled, filled_len};
use crate::error::{WebSocketError, Fault};

verus! {

broadcast use group_hash_axioms;

/// The bit of a token that marks a write. The counter stays below it.
pub const WRITE_BIT: u64 = 0x8000_0000_0000_0000;

/// What an operation in flight does, with the buffer it owns while it does.
#[derive(Debug)]
pub enum Operation {
    Accept,
    Read(Buffer),
    Write(Buffer),
}

/// What an operation does, as a mathematical value.
pub enum OperationView {
    Accept,
    Read(BufferView),
    Write(BufferView),
}

impl View for Operation {
    type V = OperationView;

    open spec fn view(&self) -> OperationView {
        match self {
            Operation::Accept => OperationView::Accept,
            Operation::Read(b) => OperationView::Read(b@),
            Operation::Write(b) => OperationView::Write(b@),
        }
    }
}

/// An operation in flight: what it does and for which connection.
#[derive(Debug)]
pub struct PendingOperation {
    /// What the operation does.
    pub op: Operation,
    /// The connection that issued it; 0 for the listener.
    pub connection: u64,
}

/// An operation in flight as a mathematical value.
pub struct PendingView {
    pub op: OperationView,
    pub connection: u64,
}

impl View for PendingOperation {
    type V = PendingView;

    open spec fn view(&self) -> PendingView {
        PendingView { op: self.op@, connection: self.connection }
    }
}

/// Whether `token` is that of a write: its high bit is set.
pub open spec fn is_write_token(token: u64) -> bool {
    token >= WRITE_BIT
}

/// The counter's value that `token` was made of.
pub open spec fn counter_of(token: u64) -> int {
    if token >= WRITE_BIT {
        token - WRITE_BIT
    } else {
        token as int
    }
}

/// The token that an operation gets when the counter stands at `counter`.
pub open spec fn token_for(op: OperationView, counter: u64) -> u64
    recommends
        counter < WRITE_BIT,
{
    if op is Write {
        (counter + WRITE_BIT) as u64
    } else {
        counter
    }
}

/// The buffer of the read in flight under `token`, if there is one.
pub open spec fn read_buffer(pending: Map<u64, PendingView>, token: u64) -> Option<BufferView> {
    if pending.contains_key(token) {
        match pending[token].op {
            OperationView::Read(b) => Some(b),
            _ => None,
        }
    } else {
        None
    }
}

/// The buffer of the operation in flight under `token`, if it has one.
pub open spec fn buffer_of(pending: Map<u64, PendingView>, token: u64) -> Option<BufferView> {
    if pending.contains_key(token) {
        match pending[token].op {
            OperationView::Read(b) => Some(b),
            OperationView::Write(b) => Some(b),
            OperationView::Accept => None,
        }
    } else {
        None
    }
}

/// Whether the tokens of `pending` are in order with the counter at `next`:
/// each was made of a value that the counter has passed, no two of the same
/// value, and each has the high bit if and only if its operation is a write.
pub open spec fn tokens_in_order(pending: Map<u64, PendingView>, next: u64) -> bool {
    &&& next <= WRITE_BIT
    &&& forall|t: u64| #[trigger] pending.contains_key(t) ==> counter_of(t) < next
    &&& forall|t: u64| #[trigger]
        pending.contains_key(t) ==> (is_write_token(t) <==> pending[t].op is Write)
    &&& forall|t: u64, u: u64|
        pending.contains_key(t) && pending.contains_key(u) && counter_of(t) == counter_of(u)
            ==> t == u
}

/// Whether `token` is that of a write.
pub fn is_write(token: u64) -> (b: bool)
    ensures
        b == is_write_token(token),
{
    token >= WRITE_BIT
}

/// The operations in flight, by token.
pub struct OperationRegistry {
    operations: HashMap<u64, PendingOperation>,
    next_id: u64,
}

impl OperationRegistry {
    /// The operations in flight, by token.
    pub closed spec fn pending(&self) -> Map<u64, PendingOperation> {
        self.operations@
    }

    /// The operations in flight as mathematical values, by token.
    pub open spec fn views(&self) -> Map<u64, PendingView> {
        self.pending().map_values(|p: PendingOperation| p@)
    }

    /// Where the counter stands: the value that the next token is made of.
    pub closed spec fn next_token(&self) -> u64 {
        self.next_id
    }

    #[verifier::type_invariant]
    spec fn in_order(&self) -> bool {
        tokens_in_order(self.operations@.map_values(|p: PendingOperation| p@), self.next_id)
    }

    /// A registry with no operation in flight.
    pub fn new() -> (r: OperationRegistry)
        ensures
            r.pending() == Map::<u64, PendingOperation>::empty(),
            r.views() == Map::<u64, PendingView>::empty(),
            r.next_token() == 0,
    {
        let r = OperationRegistry { operations: HashMap::new(), next_id: 0 };
        assert(r.views() =~= Map::<u64, PendingView>::empty());
        r
    }

    /// The number of operations in flight.
    pub fn len(&self) -> (n: usize)
        ensures
            n == self.pending().len(),
    {
        self.operations.len()
    }

    /// Whether an operation is in flight under `token`.
    pub fn is_pending(&self, token: u64) -> (b: bool)
        ensures
            b == self.pending().contains_key(token),
            b == self.views().contains_key(token),
    {
        self.operations.contains_key(&token)
    }

    /// The operation in flight under `token`, if there is one. It is a write
    /// if and only if `token` is that of a write.
    pub fn get(&self, token: u64) -> (r: Option<&PendingOperation>)
        ensures
            match r {
                Some(op) => {
                    &&& self.pending().contains_key(token)
                    &&& *op == self.pending()[token]
                    &&& op@ == self.views()[token]
                    &&& is_write_token(token) <==> op@.op is Write
                },
                None => !self.pending().contains_key(token),
            },
    {
        proof {
            use_type_invariant(self);
        }
        let r = self.operations.get(&token);
        proof {
            if r is Some {
                assert(self.views().contains_key(token));
            }
        }
        r
    }

    /// The bytes of the buffer of the operation in flight under `token`, if it
    /// has one.
    pub fn buffer(&self, token: u64) -> (r: Option<&[u8]>)
        ensures
            match buffer_of(self.views(), token) {
                Some(b) => r is Some && r->Some_0@ == b.bytes,
                None => r is None,
            },
    {
        match self.operations.get(&token) {
            Some(pending) => match &pending.op {
                Operation::Read(b) => Some(b.as_slice()),
                Operation::Write(b) => Some(b.as_slice()),
                Operation::Accept => None,
            },
            None => None,
        }
    }

    /// Whether a token is left for another operation.
    pub fn has_token(&self) -> (b: bool)
        ensures
            b == (self.next_token() < WRITE_BIT),
    {
        self.next_id < WRITE_BIT
    }

    /// Puts `operation` in flight and gives its token: the counter's value,
    /// with the high bit set for a write. No operation in flight has that
    /// token, and none was made of the same value. Where the counter has run
    /// out, nothing changes and the operation comes back.
    pub fn register(&mut self, operation: PendingOperation) -> (r: Result<u64, PendingOperation>)
        ensures
            old(self).next_token() < WRITE_BIT ==> {
                let token = token_for(operation@.op, old(self).next_token());
                &&& r == Ok::<u64, PendingOperation>(token)
                &&& !old(self).pending().contains_key(token)
                &&& forall|t: u64| #[trigger]
                    old(self).pending().contains_key(t) ==> counter_of(t) != counter_of(token)
                &&& final(self).pending() == old(self).pending().insert(token, operation)
                &&& final(self).views() == old(self).views().insert(token, operation@)
                &&& final(self).next_token() == old(self).next_token() + 1
            },
            old(self).next_token() >= WRITE_BIT ==> {
                &&& r == Err::<u64, PendingOperation>(operation)
                &&& final(self).pending() == old(self).pending()
                &&& final(self).views() == old(self).views()
                &&& final(self).next_token() == old(self).next_token()
            },
    {
        proof {
            use_type_invariant(&*self);
        }
        if self.next_id >= WRITE_BIT {
            return Err(operation);
        }
        let token: u64 = match operation.op {
            Operation::Write(_) => self.next_id + WRITE_BIT,
            _ => self.next_id,
        };
        proof {
            assert forall|t: u64| #[trigger]
                self.operations@.contains_key(t) implies counter_of(t) != counter_of(token) by {
                assert(self.views().contains_key(t));
            }
        }
        let mut operations: HashMap<u64, PendingOperation> = HashMap::new();
        core::mem::swap(&mut self.operations, &mut operations);
        operations.insert(token, operation);
        self.next_id = self.next_id + 1;
        proof {
            let views = operations@.map_values(|p: PendingOperation| p@);
            assert(views =~= old(self).views().insert(token, operation@));
            assert forall|t: u64| #[trigger] views.contains_key(t) implies counter_of(t)
                < self.next_id && (is_write_token(t) <==> views[t].op is Write) by {
                if t != token {
                    assert(old(self).views().contains_key(t));
                }
            }
        }
        core::mem::swap(&mut self.operations, &mut operations);
        Ok(token)
    }

    /// Copies `bytes` to the start of the buffer of the read in flight under
    /// `token`, as many as it has room for, and gives their number. Where
    /// `token` names no read in flight, nothing changes.
    pub fn fill(&mut self, token: u64, bytes: &[u8]) -> (r: Option<usize>)
        ensures
            final(self).next_token() == old(self).next_token(),
            match read_buffer(old(self).views(), token) {
                Some(b) => {
                    &&& r == Some(filled_len(b.bytes, bytes@) as usize)
                    &&& final(self).views() == old(self).views().insert(
                        token,
                        PendingView {
                            op: OperationView::Read(
                                BufferView { bytes: filled(b.bytes, bytes@), ..b },
                            ),
                            ..old(self).views()[token]
                        },
                    )
                },
                None => r is None && final(self).views() == old(self).views(),
            },
    {
        proof {
            use_type_invariant(&*self);
        }
        let mut operations: HashMap<u64, PendingOperation> = HashMap::new();
        core::mem::swap(&mut self.operations, &mut operations);
        let ghost before = operations@;
        let r = match operations.remove(&token) {
            Some(pending) => {
                let PendingOperation { op, connection } = pending;
                match op {
                    Operation::Read(mut buffer) => {
                        let n = buffer.fill(bytes);
                        operations.insert(
                            token,
                            PendingOperation { op: Operation::Read(buffer), connection },
                        );
                        Some(n)
                    },
                    other => {
                        operations.insert(token, PendingOperation { op: other, connection });
                        assert(operations@ =~= before);
                        None
                    },
                }
            },
            None => None,
        };
        proof {
            let views = operations@.map_values(|p: PendingOperation| p@);
            match read_buffer(old(self).views(), token) {
                Some(b) => {
                    assert(views =~= old(self).views().insert(
                        token,
                        PendingView {
                            op: OperationView::Read(
                                BufferView { bytes: filled(b.bytes, bytes@), ..b },
                            ),
                            ..old(self).views()[token]
                        },
                    ));
                },
                None => {
                    assert(views =~= old(self).views());
                },
            }
            assert forall|t: u64| #[trigger] views.contains_key(t) implies counter_of(t)
                < self.next_id && (is_write_token(t) <==> views[t].op is Write) by {
                assert(old(self).views().contains_key(t));
            }
        }
        core::mem::swap(&mut self.operations, &mut operations);
        r
    }

    /// Takes the operation in flight under `token` out of the registry: a
    /// completion is taken once. A token that no operation has is answered
    /// with `UnknownToken`.
    pub fn resolve(&mut self, token: u64) -> (r: Result<PendingOperation, WebSocketError>)
        ensures
            final(self).next_token() == old(self).next_token(),
            match r {
                Ok(operation) => {
                    &&& old(self).pending().contains_key(token)
                    &&& operation == old(self).pending()[token]
                    &&& final(self).pending() == old(self).pending().remove(token)
                    &&& old(self).views().contains_key(token)
                    &&& operation@ == old(self).views()[token]
                    &&& final(self).views() == old(self).views().remove(token)
                    &&& is_write_token(token) <==> operation@.op is Write
                },
                Err(e) => {
                    &&& !old(self).pending().contains_key(token)
                    &&& e@ == Fault::UnknownToken(token)
                    &&& final(self).pending() == old(self).pending()
                    &&& !old(self).views().contains_key(token)
                    &&& final(self).views() == old(self).views()
                },
            },
    {
        proof {
            use_type_invariant(&*self);
        }
        let mut operations: HashMap<u64, PendingOperation> = HashMap::new();
        core::mem::swap(&mut self.operations, &mut operations);
        let found = operations.remove(&token);
        proof {
            let views = operations@.map_values(|p: PendingOperation| p@);
            if found is Some {
                assert(old(self).views().contains_key(token));
                assert(views =~= old(self).views().remove(token));
            }
            assert forall|t: u64| #[trigger] views.contains_key(t) implies counter_of(t)
                < self.next_id && (is_write_token(t) <==> views[t].op is Write) by {
                assert(old(self).views().contains_key(t));
            }
        }
        core::mem::swap(&mut self.operations, &mut operations);
        match found {
            Some(operation) => Ok(operation),
            None => Err(WebSocketError::UnknownToken(token)),
        }
    }
}

/// A token is live in one operation at most. Where the tokens are in order
/// and the counter has not run out, the token of a new operation is none of
/// the live ones, none of them was made of the same counter value, the tokens
/// are in order again once it is live, and they are as before once it is
/// resolved.
pub proof fn lemma_tokens_unique(pending: Map<u64, PendingView>, next: u64, operation: PendingView)
    requires
        tokens_in_order(pending, next),
        next < WRITE_BIT,
    ensures
        !pending.contains_key(token_for(operation.op, next)),
        forall|t: u64| #[trigger]
            pending.contains_key(t) ==> counter_of(t) != counter_of(token_for(operation.op, next)),
        tokens_in_order(
            pending.insert(token_for(operation.op, next), operation),
            (next + 1) as u64,
        ),
        pending.insert(token_for(operation.op, next), operation).remove(
            token_for(operation.op, next),
        ) == pending,
{
    let token = token_for(operation.op, next);
    assert(pending.insert(token, operation).remove(token) =~= pending);
}

/// Two different live tokens were made of different counter values: a token
/// with the high bit cleared or set is not live beside the other.
pub proof fn lemma_live_tokens_distinct(pending: Map<u64, PendingView>, next: u64, a: u64, b: u64)
    requires
        tokens_in_order(pending, next),
        pending.contains_key(a),
        pending.contains_key(b),
        a != b,
    ensures
        counter_of(a) != counter_of(b),
{
}

} // verus!
