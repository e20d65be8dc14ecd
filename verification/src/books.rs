//! The books of a reactor: which tokens are live and who owns which buffer.
//! What is stated here holds of the registry and the arena taken together.

use vstd::prelude::*;
use crate::arena::{BufferView, filled};
use crate::registry::{
    OperationView, PendingView, buffer_of, read_buffer, tokens_in_order, token_for, counter_of,
    is_write_token, WRITE_BIT,
};

verus! {

/// The arena with the slot `id` freed, where it was held.
pub open spec fn released(arena: Seq<bool>, id: usize) -> Seq<bool> {
    if id < arena.len() && arena[id as int] {
        arena.update(id as int, false)
    } else {
        arena
    }
}

/// The buffer that an operation owns, if it owns one.
pub open spec fn op_buffer(op: OperationView) -> Option<BufferView> {
    match op {
        OperationView::Read(b) => Some(b),
        OperationView::Write(b) => Some(b),
        OperationView::Accept => None,
    }
}

/// Whether the operation under `token` owns the buffer on slot `id`.
pub open spec fn owns(pending: Map<u64, PendingView>, token: u64, id: int) -> bool {
    buffer_of(pending, token) matches Some(b) && b.id == id
}

/// Whether each buffer has one owner: every operation with a buffer holds a
/// slot of the arena, no two hold the same, and every slot that is held is
/// held by an operation in flight.
pub open spec fn buffers_owned_once(pending: Map<u64, PendingView>, arena: Seq<bool>) -> bool {
    &&& forall|t: u64, id: int| #[trigger]
        owns(pending, t, id) ==> 0 <= id < arena.len() && arena[id]
    &&& forall|t: u64, u: u64, id: int|
        #![trigger owns(pending, t, id), owns(pending, u, id)]
        owns(pending, t, id) && owns(pending, u, id) ==> t == u
    &&& forall|id: int|
        0 <= id < arena.len() && #[trigger] arena[id] ==> exists|t: u64| owns(pending, t, id)
}

/// Whether the books agree: the tokens of `pending` are in order with the
/// counter at `next`, each buffer has one owner, and the arena has no more
/// slots than can be counted.
pub open spec fn books_agree(pending: Map<u64, PendingView>, next: u64, arena: Seq<bool>) -> bool {
    &&& tokens_in_order(pending, next)
    &&& buffers_owned_once(pending, arena)
    &&& arena.len() <= usize::MAX
}

/// The arena once the buffer of `op`, if it has one, is back.
pub open spec fn arena_without(arena: Seq<bool>, op: OperationView) -> Seq<bool> {
    match op_buffer(op) {
        Some(b) => released(arena, b.id),
        None => arena,
    }
}

/// The arena once the buffer of `op`, if it has one, is out.
pub open spec fn arena_with(arena: Seq<bool>, op: OperationView) -> Seq<bool> {
    match op_buffer(op) {
        Some(b) => arena.update(b.id as int, true),
        None => arena,
    }
}

/// Books without operations and with a free arena agree.
pub proof fn lemma_empty_books_agree(arena: Seq<bool>)
    requires
        arena.len() <= usize::MAX,
        forall|i: int| 0 <= i < arena.len() ==> !arena[i],
    ensures
        books_agree(Map::<u64, PendingView>::empty(), 0, arena),
{
}

/// Taking an operation out of flight and its buffer back keeps the books in
/// agreement.
pub proof fn lemma_resolve_keeps_books(
    pending: Map<u64, PendingView>,
    next: u64,
    arena: Seq<bool>,
    token: u64,
)
    requires
        books_agree(pending, next, arena),
        pending.contains_key(token),
    ensures
        books_agree(pending.remove(token), next, arena_without(arena, pending[token].op)),
{
    let after = pending.remove(token);
    let freed = arena_without(arena, pending[token].op);
    assert forall|t: u64, id: int| #[trigger] owns(after, t, id) implies 0 <= id < freed.len()
        && freed[id] by {
        assert(owns(pending, t, id));
        if buffer_of(pending, token) is Some && buffer_of(pending, token)->0.id == id {
            assert(owns(pending, token, id));
        }
    }
    assert forall|t: u64, u: u64, id: int|
        #![trigger owns(after, t, id), owns(after, u, id)]
        owns(after, t, id) && owns(after, u, id) implies t == u by {
        assert(owns(pending, t, id));
        assert(owns(pending, u, id));
    }
    assert forall|id: int| 0 <= id < freed.len() && #[trigger] freed[id] implies exists|t: u64|
        owns(after, t, id) by {
        assert(arena[id]);
        let t = choose|t: u64| owns(pending, t, id);
        assert(t != token);
        assert(owns(after, t, id));
    }
}

/// Putting an operation in flight, with a buffer on a free slot or with none,
/// keeps the books in agreement.
pub proof fn lemma_issue_keeps_books(
    pending: Map<u64, PendingView>,
    next: u64,
    arena: Seq<bool>,
    op: PendingView,
)
    requires
        books_agree(pending, next, arena),
        next < WRITE_BIT,
        op_buffer(op.op) matches Some(b) ==> b.id < arena.len() && !arena[b.id as int],
    ensures
        !pending.contains_key(token_for(op.op, next)),
        books_agree(
            pending.insert(token_for(op.op, next), op),
            (next + 1) as u64,
            arena_with(arena, op.op),
        ),
{
    let token = token_for(op.op, next);
    let after = pending.insert(token, op);
    let taken = arena_with(arena, op.op);
    assert(!pending.contains_key(token)) by {
        if pending.contains_key(token) {
            assert(counter_of(token) < next);
        }
    }
    assert forall|t: u64| #[trigger] after.contains_key(t) implies counter_of(t) < next + 1 && (
    is_write_token(t) <==> after[t].op is Write) by {
        if t != token {
            assert(pending.contains_key(t));
        }
    }
    assert forall|t: u64, u: u64|
        after.contains_key(t) && after.contains_key(u) && counter_of(t) == counter_of(
            u,
        ) implies t == u by {
        if t != token {
            assert(pending.contains_key(t));
        }
        if u != token {
            assert(pending.contains_key(u));
        }
    }
    assert forall|t: u64, id: int| #[trigger] owns(after, t, id) implies 0 <= id < taken.len()
        && taken[id] by {
        if t != token {
            assert(owns(pending, t, id));
        }
    }
    assert forall|t: u64, u: u64, id: int|
        #![trigger owns(after, t, id), owns(after, u, id)]
        owns(after, t, id) && owns(after, u, id) implies t == u by {
        if t != token {
            assert(owns(pending, t, id));
        }
        if u != token {
            assert(owns(pending, u, id));
        }
    }
    assert forall|id: int| 0 <= id < taken.len() && #[trigger] taken[id] implies exists|t: u64|
        owns(after, t, id) by {
        if arena[id] {
            let t = choose|t: u64| owns(pending, t, id);
            assert(t != token);
            assert(owns(after, t, id));
        } else {
            assert(owns(after, token, id));
        }
    }
}

/// Handing the buffer of an operation on to a new one keeps the books in
/// agreement: the old operation leaves, the new one owns the same slot, and
/// the arena is as it was.
pub proof fn lemma_hand_on_keeps_books(
    pending: Map<u64, PendingView>,
    next: u64,
    arena: Seq<bool>,
    token: u64,
    op: PendingView,
)
    requires
        books_agree(pending, next, arena),
        next < WRITE_BIT,
        pending.contains_key(token),
        op_buffer(pending[token].op) is Some,
        op_buffer(op.op) is Some,
        op_buffer(op.op)->0.id == op_buffer(pending[token].op)->0.id,
    ensures
        books_agree(pending.remove(token).insert(token_for(op.op, next), op), (next + 1) as u64, arena),
{
    let id = op_buffer(op.op)->0.id;
    assert(owns(pending, token, id as int));
    lemma_resolve_keeps_books(pending, next, arena, token);
    let freed = arena_without(arena, pending[token].op);
    lemma_issue_keeps_books(pending.remove(token), next, freed, op);
    assert(arena_with(freed, op.op) =~= arena);
}

/// Bytes that arrive in the buffer of a read keep the books in agreement.
pub proof fn lemma_receive_keeps_books(
    pending: Map<u64, PendingView>,
    next: u64,
    arena: Seq<bool>,
    token: u64,
    bytes: Seq<u8>,
)
    requires
        books_agree(pending, next, arena),
    ensures
        match read_buffer(pending, token) {
            Some(b) => books_agree(
                pending.insert(
                    token,
                    PendingView {
                        op: OperationView::Read(BufferView { bytes: filled(b.bytes, bytes), ..b }),
                        ..pending[token]
                    },
                ),
                next,
                arena,
            ),
            None => true,
        },
{
    if read_buffer(pending, token) is Some {
        let b = read_buffer(pending, token)->0;
        let after = pending.insert(
            token,
            PendingView {
                op: OperationView::Read(BufferView { bytes: filled(b.bytes, bytes), ..b }),
                ..pending[token]
            },
        );
        assert(after.dom() =~= pending.dom());
        assert forall|t: u64, id: int| owns(after, t, id) <==> owns(pending, t, id) by {
        }
        assert forall|t: u64| #[trigger] after.contains_key(t) implies counter_of(t) < next && (
        is_write_token(t) <==> after[t].op is Write) by {
            assert(pending.contains_key(t));
        }
        assert forall|t: u64, u: u64|
            after.contains_key(t) && after.contains_key(u) && counter_of(t) == counter_of(
                u,
            ) implies t == u by {
            assert(pending.contains_key(t));
            assert(pending.contains_key(u));
        }
        assert forall|id: int| 0 <= id < arena.len() && #[trigger] arena[id] implies exists|
            t: u64,
        | owns(after, t, id) by {
            let t = choose|t: u64| owns(pending, t, id);
            assert(owns(after, t, id));
        }
    }
}

} // verus!
