//! The buffer arena: a fixed number of slots, each held by one buffer at a time.

use vstd::prelude::*;
use crate::error::{WebSocketError, Fault};

verus! {

/// A byte buffer that holds one slot of an arena. It cannot be copied: who
/// has it, has the slot, until the arena takes it back.
#[derive(Debug)]
pub struct Buffer {
    id: usize,
    data: Vec<u8>,
}

/// A buffer as a mathematical value.
pub struct BufferView {
    /// The slot that the buffer holds.
    pub id: usize,
    /// The bytes of the buffer.
    pub bytes: Seq<u8>,
}

impl View for Buffer {
    type V = BufferView;

    closed spec fn view(&self) -> BufferView {
        BufferView { id: self.id, bytes: self.data@ }
    }
}

impl Buffer {
    /// The slot that the buffer holds.
    pub fn id(&self) -> (id: usize)
        ensures
            id == self@.id,
    {
        self.id
    }

    /// The number of bytes of the buffer.
    pub fn len(&self) -> (n: usize)
        ensures
            n == self@.bytes.len(),
    {
        self.data.len()
    }

    /// The bytes of the buffer.
    pub fn as_slice(&self) -> (bytes: &[u8])
        ensures
            bytes@ == self@.bytes,
    {
        self.data.as_slice()
    }

    /// Copies `bytes` to the start of the buffer, as many as it has room for,
    /// and gives their number.
    pub fn fill(&mut self, bytes: &[u8]) -> (n: usize)
        ensures
            n == filled_len(old(self)@.bytes, bytes@),
            final(self)@ == (BufferView { bytes: filled(old(self)@.bytes, bytes@), ..old(self)@ }),
    {
        let n: usize = if bytes.len() <= self.data.len() {
            bytes.len()
        } else {
            self.data.len()
        };
        let mut i: usize = 0;
        while i < n
            invariant
                i <= n,
                n <= bytes.len(),
                n <= self.data.len(),
                self.id == old(self).id,
                self.data@.len() == old(self).data@.len(),
                forall|j: int| 0 <= j < i ==> self.data@[j] == bytes@[j],
                forall|j: int| i <= j < self.data@.len() ==> self.data@[j] == old(self).data@[j],
            decreases n - i,
        {
            self.data[i] = bytes[i];
            i += 1;
        }
        assert(self.data@ =~= filled(old(self).data@, bytes@));
        n
    }
}

/// How many bytes of `bytes` a buffer with the contents `old` has room for.
pub open spec fn filled_len(old: Seq<u8>, bytes: Seq<u8>) -> int {
    if bytes.len() <= old.len() {
        bytes.len() as int
    } else {
        old.len() as int
    }
}

/// The contents `old` with `bytes` copied to their start, as far as there is room.
pub open spec fn filled(old: Seq<u8>, bytes: Seq<u8>) -> Seq<u8> {
    Seq::new(
        old.len(),
        |j: int|
            if j < bytes.len() {
                bytes[j]
            } else {
                old[j]
            },
    )
}

/// The lowest slot at or behind `from` that is free, if there is one.
pub open spec fn first_free(slots: Seq<bool>, from: int) -> Option<int>
    decreases slots.len() - from,
{
    if from < 0 || from >= slots.len() {
        None
    } else if !slots[from] {
        Some(from)
    } else {
        first_free(slots, from + 1)
    }
}

/// The arena. Slot `i` is held while a buffer with the id `i` is out.
#[derive(Debug)]
pub struct BufferArena {
    in_use: Vec<bool>,
}

impl View for BufferArena {
    type V = Seq<bool>;

    /// For each slot, whether it is held.
    closed spec fn view(&self) -> Seq<bool> {
        self.in_use@
    }
}

impl BufferArena {
    /// An arena of `capacity` slots, all free.
    pub fn new(capacity: usize) -> (arena: BufferArena)
        ensures
            arena@ == Seq::new(capacity as nat, |i: int| false),
    {
        let mut in_use: Vec<bool> = Vec::new();
        let mut i: usize = 0;
        while i < capacity
            invariant
                i <= capacity,
                in_use@.len() == i,
                forall|j: int| 0 <= j < i ==> !in_use@[j],
            decreases capacity - i,
        {
            in_use.push(false);
            i += 1;
        }
        assert(in_use@ =~= Seq::new(capacity as nat, |i: int| false));
        BufferArena { in_use }
    }

    /// The number of slots.
    pub fn capacity(&self) -> (n: usize)
        ensures
            n == self@.len(),
    {
        self.in_use.len()
    }

    /// Whether slot `id` is held.
    pub fn is_held(&self, id: usize) -> (b: bool)
        ensures
            b == (id < self@.len() && self@[id as int]),
    {
        id < self.in_use.len() && self.in_use[id]
    }

    /// The number of slots that are held.
    pub fn held_count(&self) -> (n: usize)
        ensures
            n == count_held(self@, self@.len() as int),
    {
        let mut n: usize = 0;
        let mut i: usize = 0;
        while i < self.in_use.len()
            invariant
                i <= self.in_use.len(),
                n <= i,
                n == count_held(self@, i as int),
            decreases self.in_use.len() - i,
        {
            if self.in_use[i] {
                n += 1;
            }
            i += 1;
        }
        n
    }

    /// Hands out a buffer of `size` zero bytes on the lowest free slot. Where
    /// every slot is held, nothing changes and the error is `ResourceExhausted`.
    pub fn acquire(&mut self, size: usize) -> (r: Result<Buffer, WebSocketError>)
        ensures
            match first_free(old(self)@, 0) {
                Some(id) => {
                    &&& r is Ok
                    &&& r->Ok_0@ == (BufferView {
                        id: id as usize,
                        bytes: Seq::new(size as nat, |i: int| 0u8),
                    })
                    &&& 0 <= id < old(self)@.len()
                    &&& !old(self)@[id]
                    &&& final(self)@ == old(self)@.update(id, true)
                },
                None => {
                    &&& r is Err
                    &&& r->Err_0@ == Fault::Exhausted
                    &&& final(self)@ == old(self)@
                    &&& forall|i: int| 0 <= i < old(self)@.len() ==> old(self)@[i]
                },
            },
    {
        let mut i: usize = 0;
        while i < self.in_use.len()
            invariant
                i <= self.in_use.len(),
                self.in_use@ == old(self).in_use@,
                first_free(self.in_use@, 0) == first_free(self.in_use@, i as int),
                forall|j: int| 0 <= j < i ==> self.in_use@[j],
            decreases self.in_use.len() - i,
        {
            if !self.in_use[i] {
                self.in_use[i] = true;
                let data: Vec<u8> = vec![0u8; size];
                assert(data@ =~= Seq::new(size as nat, |i: int| 0u8));
                return Ok(Buffer { id: i, data });
            }
            i += 1;
        }
        Err(WebSocketError::ResourceExhausted)
    }

    /// Takes `buffer` back and frees its slot. It says whether the slot was
    /// held; a buffer whose slot was not, is no buffer of this arena.
    pub fn release(&mut self, buffer: Buffer) -> (was_held: bool)
        ensures
            was_held == (buffer@.id < old(self)@.len() && old(self)@[buffer@.id as int]),
            final(self)@ == if was_held {
                old(self)@.update(buffer@.id as int, false)
            } else {
                old(self)@
            },
    {
        let id = buffer.id;
        if id < self.in_use.len() && self.in_use[id] {
            self.in_use[id] = false;
            true
        } else {
            false
        }
    }
}

/// The number of the first `n` slots that are held.
pub open spec fn count_held(slots: Seq<bool>, n: int) -> int
    decreases n,
{
    if n <= 0 {
        0
    } else {
        count_held(slots, n - 1) + if slots[n - 1] {
            1int
        } else {
            0int
        }
    }
}

/// A buffer is never handed out on a slot that is held: the slot of an
/// acquired buffer was free, and it is the only one that changed.
pub proof fn lemma_acquire_is_fresh(slots: Seq<bool>)
    ensures
        match first_free(slots, 0) {
            Some(id) => 0 <= id < slots.len() && !slots[id] && forall|j: int|
                0 <= j < id ==> slots[j],
            None => forall|j: int| 0 <= j < slots.len() ==> slots[j],
        },
{
    lemma_first_free(slots, 0);
}

/// `first_free` gives the lowest free slot at or behind `from`.
pub proof fn lemma_first_free(slots: Seq<bool>, from: int)
    requires
        0 <= from,
    ensures
        match first_free(slots, from) {
            Some(id) => from <= id < slots.len() && !slots[id] && forall|j: int|
                from <= j < id ==> slots[j],
            None => forall|j: int| from <= j < slots.len() ==> slots[j],
        },
    decreases slots.len() - from,
{
    if from < slots.len() && slots[from] {
        lemma_first_free(slots, from + 1);
    }
}

} // verus!
