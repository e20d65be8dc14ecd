//! A plain echo server on the ring: what each completion calls for, and the
//! bookkeeping that carries it out. No protocol lies on top: what was read is
//! sent back as it came, from the buffer it was read into.

use vstd::prelude::*;
use crate::arena::{BufferArena, BufferView, first_free, filled, filled_len, lemma_first_free};
use crate::books::{
    books_agree, released, lemma_resolve_keeps_books, lemma_issue_keeps_books,
    lemma_hand_on_keeps_books, lemma_receive_keeps_books,
};
use crate::entry::{Entry, SocketOpcode, accept_entry, recv_entry, send_entry};
use crate::reactor::Action;
use crate::registry::{
    Operation, OperationRegistry, OperationView, PendingOperation, PendingView, buffer_of,
    read_buffer, WRITE_BIT,
};

verus! {

/// What the completion of one operation calls for.
#[derive(Debug, Clone, Copy, PartialEq, Eq, Structural)]
pub struct EchoDecision {
    /// The socket to start a receive on, with a fresh buffer.
    pub recv_on: Option<i32>,
    /// How many bytes of the operation's buffer to send back on its socket.
    /// The buffer goes on to the send.
    pub send_len: Option<usize>,
    /// Whether to put another accept in flight.
    pub accept_again: bool,
    /// Whether the operation's buffer is done with and to be released.
    pub release_buffer: bool,
}

/// What the completion of an operation of the kind `opcode` on socket `fd`,
/// with the result `res`, calls for.
///
/// An accept is always followed by another; a socket that it brought is
/// received on. A receive that brought bytes has them sent back from its own
/// buffer; one that brought none, or failed, gives up its buffer. A send
/// gives up its buffer, and is followed by a receive unless it failed.
pub open spec fn echo_step(opcode: SocketOpcode, fd: i32, res: i32) -> EchoDecision {
    match opcode {
        SocketOpcode::Accept => EchoDecision {
            recv_on: if res >= 0 {
                Some(res)
            } else {
                None
            },
            send_len: None,
            accept_again: true,
            release_buffer: false,
        },
        SocketOpcode::Recv => EchoDecision {
            recv_on: None,
            send_len: if res > 0 {
                Some(res as usize)
            } else {
                None
            },
            accept_again: false,
            release_buffer: res <= 0,
        },
        SocketOpcode::Send => EchoDecision {
            recv_on: if res >= 0 {
                Some(fd)
            } else {
                None
            },
            send_len: None,
            accept_again: false,
            release_buffer: true,
        },
        SocketOpcode::NULL => EchoDecision {
            recv_on: None,
            send_len: None,
            accept_again: false,
            release_buffer: false,
        },
    }
}

/// Decides what the completion of an accept with the result `res` calls for.
pub fn handle_accept(res: i32) -> (d: EchoDecision)
    ensures
        d == echo_step(SocketOpcode::Accept, res, res),
        d.accept_again,
{
    EchoDecision {
        recv_on: if res >= 0 {
            Some(res)
        } else {
            None
        },
        send_len: None,
        accept_again: true,
        release_buffer: false,
    }
}

/// Decides what the completion of a receive on socket `fd` with the result
/// `res` calls for.
pub fn handle_read(res: i32, fd: i32) -> (d: EchoDecision)
    ensures
        d == echo_step(SocketOpcode::Recv, fd, res),
        d.release_buffer <==> d.send_len is None,
{
    EchoDecision {
        recv_on: None,
        send_len: if res > 0 {
            Some(res as usize)
        } else {
            None
        },
        accept_again: false,
        release_buffer: res <= 0,
    }
}

/// Decides what the completion of a send on socket `fd` with the result
/// `res` calls for.
pub fn handle_write(res: i32, fd: i32) -> (d: EchoDecision)
    ensures
        d == echo_step(SocketOpcode::Send, fd, res),
        d.release_buffer,
{
    EchoDecision {
        recv_on: if res >= 0 {
            Some(fd)
        } else {
            None
        },
        send_len: None,
        accept_again: false,
        release_buffer: true,
    }
}

/// Decides what the completion of an operation of the kind `opcode` on
/// socket `fd`, with the result `res`, calls for.
pub fn handle_completion(opcode: SocketOpcode, fd: i32, res: i32) -> (d: EchoDecision)
    ensures
        d == echo_step(opcode, fd, res),
{
    match opcode {
        SocketOpcode::Accept => handle_accept(res),
        SocketOpcode::Recv => handle_read(res, fd),
        SocketOpcode::Send => handle_write(res, fd),
        SocketOpcode::NULL => EchoDecision {
            recv_on: None,
            send_len: None,
            accept_again: false,
            release_buffer: false,
        },
    }
}

/// A buffer has one owner on every path: the completion of an operation with
/// a buffer either hands the buffer on to a send or releases it, never both
/// and never neither. An accept has no buffer to release.
pub proof fn lemma_buffer_goes_one_way(opcode: SocketOpcode, fd: i32, res: i32)
    ensures
        opcode == SocketOpcode::Recv || opcode == SocketOpcode::Send ==> (echo_step(
            opcode,
            fd,
            res,
        ).release_buffer <==> echo_step(opcode, fd, res).send_len is None),
        opcode == SocketOpcode::Accept ==> !echo_step(opcode, fd, res).release_buffer
            && echo_step(opcode, fd, res).send_len is None,
{
}

/// The bookkeeping of the echo server: the operations in flight and the
/// buffers they own.
pub struct EchoReactor {
    registry: OperationRegistry,
    arena: BufferArena,
    listener_fd: i32,
    buffer_size: usize,
}

/// The echo server's bookkeeping as a mathematical value.
pub struct EchoView {
    /// The operations in flight, by token. Each carries its socket as its
    /// connection.
    pub pending: Map<u64, PendingView>,
    /// Where the token counter stands.
    pub next_token: u64,
    /// For each slot of the arena, whether a buffer holds it.
    pub arena: Seq<bool>,
    /// The listening socket.
    pub listener_fd: i32,
    /// The size of the buffers that receives use.
    pub buffer_size: usize,
}

impl View for EchoReactor {
    type V = EchoView;

    closed spec fn view(&self) -> EchoView {
        EchoView {
            pending: self.registry.views(),
            next_token: self.registry.next_token(),
            arena: self.arena@,
            listener_fd: self.listener_fd,
            buffer_size: self.buffer_size,
        }
    }
}

/// The connection under which the operations on socket `fd` run.
pub open spec fn socket_key(fd: i32) -> u64 {
    if fd >= 0 {
        fd as u64
    } else {
        0
    }
}

/// The socket of the operations that run under `connection`.
pub open spec fn socket_of(connection: u64) -> i32 {
    if connection <= 0x7fff_ffff {
        connection as i32
    } else {
        -1i32
    }
}

/// Whether the books of the echo server agree: the tokens are in order and
/// each buffer has one owner.
pub open spec fn echo_consistent(v: EchoView) -> bool {
    books_agree(v.pending, v.next_token, v.arena)
}

/// What arming an accept makes of the books, and the entry to submit.
/// Nothing happens where no token is left.
pub open spec fn echo_accept_step(v: EchoView) -> (EchoView, Seq<Action>) {
    if v.next_token >= WRITE_BIT {
        (v, Seq::empty())
    } else {
        (
            EchoView {
                pending: v.pending.insert(
                    v.next_token,
                    PendingView {
                        op: OperationView::Accept,
                        connection: socket_key(v.listener_fd),
                    },
                ),
                next_token: (v.next_token + 1) as u64,
                ..v
            },
            seq![Action::Submit(accept_entry(v.listener_fd, v.next_token))],
        )
    }
}

/// What arming a receive on socket `fd` makes of the books, and what the
/// caller is to do: submit the entry, or, where no buffer or token is to be
/// had, close the socket.
pub open spec fn echo_recv_step(v: EchoView, fd: i32) -> (EchoView, Seq<Action>) {
    if v.next_token >= WRITE_BIT {
        (v, seq![Action::Close(fd)])
    } else {
        match first_free(v.arena, 0) {
            None => (v, seq![Action::Close(fd)]),
            Some(id) => (
                EchoView {
                    pending: v.pending.insert(
                        v.next_token,
                        PendingView {
                            op: OperationView::Read(
                                BufferView {
                                    id: id as usize,
                                    bytes: Seq::new(v.buffer_size as nat, |j: int| 0u8),
                                },
                            ),
                            connection: socket_key(fd),
                        },
                    ),
                    next_token: (v.next_token + 1) as u64,
                    arena: v.arena.update(id, true),
                    ..v
                },
                seq![Action::Submit(recv_entry(fd, v.buffer_size, v.next_token))],
            ),
        }
    }
}

/// How many bytes of a buffer a send of `len` bytes is about.
pub open spec fn send_len(len: usize, buffer: Seq<u8>) -> usize {
    if len <= buffer.len() {
        len
    } else {
        buffer.len() as usize
    }
}

/// What handing the buffer `b` on to a send of `len` bytes on socket `fd`
/// makes of the books, and what the caller is to do. The buffer stays on its
/// slot and the send owns it. Where no token is left, the buffer goes back
/// and the socket is to be closed.
pub open spec fn echo_send_step(v: EchoView, fd: i32, b: BufferView, len: usize) -> (
    EchoView,
    Seq<Action>,
) {
    if v.next_token >= WRITE_BIT {
        (EchoView { arena: released(v.arena, b.id), ..v }, seq![Action::Close(fd)])
    } else {
        let token = (v.next_token + WRITE_BIT) as u64;
        (
            EchoView {
                pending: v.pending.insert(
                    token,
                    PendingView { op: OperationView::Write(b), connection: socket_key(fd) },
                ),
                next_token: (v.next_token + 1) as u64,
                ..v
            },
            seq![Action::Submit(send_entry(fd, send_len(len, b.bytes), token))],
        )
    }
}

/// What the completion that names `token`, with the result `res`, makes of
/// the books, and what the caller is to do, as `echo_step` decides. The
/// operation leaves the registry. After an accept, the new socket is received
/// on and another accept is armed. After a receive, its buffer is handed on to
/// a send of what was read, or, where nothing was read, goes back to the
/// arena. After a send, its buffer goes back and the socket is received on
/// again, unless the send failed. A token that no operation has changes
/// nothing.
pub open spec fn echo_complete_step(v: EchoView, token: u64, res: i32) -> (EchoView, Seq<Action>) {
    if !v.pending.contains_key(token) {
        (v, Seq::empty())
    } else {
        let p = v.pending[token];
        let fd = socket_of(p.connection);
        let rest = EchoView { pending: v.pending.remove(token), ..v };
        match p.op {
            OperationView::Accept => {
                let d = echo_step(SocketOpcode::Accept, v.listener_fd, res);
                let (v1, a1) = match d.recv_on {
                    Some(socket) => echo_recv_step(rest, socket),
                    None => (rest, Seq::empty()),
                };
                let (v2, a2) = echo_accept_step(v1);
                (v2, a1 + a2)
            },
            OperationView::Read(b) => {
                let d = echo_step(SocketOpcode::Recv, fd, res);
                match d.send_len {
                    Some(len) => echo_send_step(rest, fd, b, len),
                    None => (EchoView { arena: released(rest.arena, b.id), ..rest }, Seq::empty()),
                }
            },
            OperationView::Write(b) => {
                let d = echo_step(SocketOpcode::Send, fd, res);
                let freed = EchoView { arena: released(rest.arena, b.id), ..rest };
                match d.recv_on {
                    Some(socket) => echo_recv_step(freed, socket),
                    None => (freed, Seq::empty()),
                }
            },
        }
    }
}

/// What taking back the operation under `token`, which could not be
/// submitted, makes of the books: the operation leaves the registry and its
/// buffer goes back to the arena.
pub open spec fn echo_cancel_step(v: EchoView, token: u64) -> EchoView {
    if !v.pending.contains_key(token) {
        v
    } else {
        EchoView {
            pending: v.pending.remove(token),
            arena: match buffer_of(v.pending, token) {
                Some(b) => released(v.arena, b.id),
                None => v.arena,
            },
            ..v
        }
    }
}

/// Arming an accept keeps the books in agreement.
pub proof fn lemma_echo_accept_keeps_books(v: EchoView)
    requires
        echo_consistent(v),
    ensures
        echo_consistent(echo_accept_step(v).0),
{
    if v.next_token < WRITE_BIT {
        lemma_issue_keeps_books(
            v.pending,
            v.next_token,
            v.arena,
            PendingView { op: OperationView::Accept, connection: socket_key(v.listener_fd) },
        );
    }
}

/// Arming a receive keeps the books in agreement.
pub proof fn lemma_echo_recv_keeps_books(v: EchoView, fd: i32)
    requires
        echo_consistent(v),
    ensures
        echo_consistent(echo_recv_step(v, fd).0),
{
    if v.next_token < WRITE_BIT && first_free(v.arena, 0) is Some {
        let id = first_free(v.arena, 0)->0;
        lemma_first_free(v.arena, 0);
        lemma_issue_keeps_books(
            v.pending,
            v.next_token,
            v.arena,
            PendingView {
                op: OperationView::Read(
                    BufferView {
                        id: id as usize,
                        bytes: Seq::new(v.buffer_size as nat, |j: int| 0u8),
                    },
                ),
                connection: socket_key(fd),
            },
        );
    }
}

/// A completion keeps the books in agreement: a buffer is handed on or goes
/// back, and never has two owners or none.
pub proof fn lemma_echo_complete_keeps_books(v: EchoView, token: u64, res: i32)
    requires
        echo_consistent(v),
    ensures
        echo_consistent(echo_complete_step(v, token, res).0),
{
    if v.pending.contains_key(token) {
        let p = v.pending[token];
        let fd = socket_of(p.connection);
        let rest = EchoView { pending: v.pending.remove(token), ..v };
        lemma_resolve_keeps_books(v.pending, v.next_token, v.arena, token);
        match p.op {
            OperationView::Accept => {
                let d = echo_step(SocketOpcode::Accept, v.listener_fd, res);
                let v1 = match d.recv_on {
                    Some(socket) => echo_recv_step(rest, socket).0,
                    None => rest,
                };
                if d.recv_on is Some {
                    lemma_echo_recv_keeps_books(rest, d.recv_on->0);
                }
                lemma_echo_accept_keeps_books(v1);
            },
            OperationView::Read(b) => {
                let d = echo_step(SocketOpcode::Recv, fd, res);
                if d.send_len is Some && v.next_token < WRITE_BIT {
                    lemma_hand_on_keeps_books(
                        v.pending,
                        v.next_token,
                        v.arena,
                        token,
                        PendingView { op: OperationView::Write(b), connection: socket_key(fd) },
                    );
                }
            },
            OperationView::Write(b) => {
                let d = echo_step(SocketOpcode::Send, fd, res);
                let freed = EchoView { arena: released(rest.arena, b.id), ..rest };
                if d.recv_on is Some {
                    lemma_echo_recv_keeps_books(freed, d.recv_on->0);
                }
            },
        }
    }
}

impl EchoReactor {
    /// The bookkeeping for the listening socket `listener_fd`, with an arena
    /// of `buffers` buffers of `buffer_size` bytes and nothing in flight.
    pub fn new(listener_fd: i32, buffers: usize, buffer_size: usize) -> (r: EchoReactor)
        ensures
            r@ == (EchoView {
                pending: Map::empty(),
                next_token: 0,
                arena: Seq::new(buffers as nat, |i: int| false),
                listener_fd,
                buffer_size,
            }),
            echo_consistent(r@),
    {
        let r = EchoReactor {
            registry: OperationRegistry::new(),
            arena: BufferArena::new(buffers),
            listener_fd,
            buffer_size,
        };
        assert(r@.pending =~= Map::empty());
        r
    }

    fn socket(connection: u64) -> (fd: i32)
        ensures
            fd == socket_of(connection),
    {
        if connection <= 0x7fff_ffff {
            connection as i32
        } else {
            -1
        }
    }

    fn key(fd: i32) -> (connection: u64)
        ensures
            connection == socket_key(fd),
    {
        if fd >= 0 {
            fd as u64
        } else {
            0
        }
    }

    fn add_accept(&mut self, actions: &mut Vec<Action>)
        ensures
            final(self)@ == echo_accept_step(old(self)@).0,
            final(actions)@ == old(actions)@ + echo_accept_step(old(self)@).1,
    {
        if !self.registry.has_token() {
            assert(actions@ =~= old(actions)@ + Seq::<Action>::empty());
            return ;
        }
        let operation = PendingOperation {
            op: Operation::Accept,
            connection: Self::key(self.listener_fd),
        };
        match self.registry.register(operation) {
            Ok(token) => {
                let mut entry = Entry::new();
                entry.set_accept(self.listener_fd).set_user_data(token);
                actions.push(Action::Submit(entry));
                assert(actions@ =~= old(actions)@ + echo_accept_step(old(self)@).1);
            },
            Err(_) => {},
        }
    }

    fn add_recv(&mut self, fd: i32, actions: &mut Vec<Action>)
        ensures
            final(self)@ == echo_recv_step(old(self)@, fd).0,
            final(actions)@ == old(actions)@ + echo_recv_step(old(self)@, fd).1,
    {
        if !self.registry.has_token() {
            actions.push(Action::Close(fd));
            assert(actions@ =~= old(actions)@ + seq![Action::Close(fd)]);
            return ;
        }
        let buffer = match self.arena.acquire(self.buffer_size) {
            Ok(b) => b,
            Err(_) => {
                actions.push(Action::Close(fd));
                assert(actions@ =~= old(actions)@ + seq![Action::Close(fd)]);
                return ;
            },
        };
        let operation = PendingOperation { op: Operation::Read(buffer), connection: Self::key(fd) };
        match self.registry.register(operation) {
            Ok(token) => {
                let mut entry = Entry::new();
                entry.set_recv(fd, self.buffer_size, 0).set_user_data(token);
                actions.push(Action::Submit(entry));
                assert(actions@ =~= old(actions)@ + echo_recv_step(old(self)@, fd).1);
            },
            Err(_) => {},
        }
    }

    /// Puts the first accept in flight.
    pub fn start(&mut self) -> (actions: Vec<Action>)
        ensures
            final(self)@ == echo_accept_step(old(self)@).0,
            actions@ == echo_accept_step(old(self)@).1,
            echo_consistent(old(self)@) ==> echo_consistent(final(self)@),
    {
        proof {
            if echo_consistent(self@) {
                lemma_echo_accept_keeps_books(self@);
            }
        }
        let mut actions: Vec<Action> = Vec::new();
        self.add_accept(&mut actions);
        assert(Seq::<Action>::empty() + echo_accept_step(old(self)@).1 =~= echo_accept_step(
            old(self)@,
        ).1);
        actions
    }

    /// Takes in the completion that names `token`, with the result `res`, and
    /// says what to do next.
    pub fn complete(&mut self, token: u64, res: i32) -> (actions: Vec<Action>)
        ensures
            final(self)@ == echo_complete_step(old(self)@, token, res).0,
            actions@ == echo_complete_step(old(self)@, token, res).1,
            echo_consistent(old(self)@) ==> echo_consistent(final(self)@),
    {
        proof {
            if echo_consistent(self@) {
                lemma_echo_complete_keeps_books(self@, token, res);
            }
        }
        let mut actions: Vec<Action> = Vec::new();
        let pending = match self.registry.resolve(token) {
            Ok(p) => p,
            Err(_) => {
                return actions;
            },
        };
        let fd = Self::socket(pending.connection);
        match pending.op {
            Operation::Accept => {
                let d = handle_accept(res);
                match d.recv_on {
                    Some(socket) => {
                        self.add_recv(socket, &mut actions);
                    },
                    None => {},
                }
                let ghost a1 = actions@;
                self.add_accept(&mut actions);
                assert(actions@ =~= Seq::<Action>::empty() + actions@);
                assert(a1 =~= Seq::<Action>::empty() + a1);
            },
            Operation::Read(buffer) => {
                let d = handle_read(res, fd);
                match d.send_len {
                    Some(len) => {
                        if !self.registry.has_token() {
                            self.arena.release(buffer);
                            actions.push(Action::Close(fd));
                            assert(actions@ =~= seq![Action::Close(fd)]);
                        } else {
                            let n: usize = if len <= buffer.len() {
                                len
                            } else {
                                buffer.len()
                            };
                            let operation = PendingOperation {
                                op: Operation::Write(buffer),
                                connection: Self::key(fd),
                            };
                            match self.registry.register(operation) {
                                Ok(sending) => {
                                    let mut entry = Entry::new();
                                    entry.set_send(fd, n, 0).set_user_data(sending);
                                    actions.push(Action::Submit(entry));
                                    assert(actions@ =~= echo_complete_step(
                                        old(self)@,
                                        token,
                                        res,
                                    ).1);
                                },
                                Err(_) => {},
                            }
                        }
                    },
                    None => {
                        self.arena.release(buffer);
                    },
                }
            },
            Operation::Write(buffer) => {
                let d = handle_write(res, fd);
                self.arena.release(buffer);
                match d.recv_on {
                    Some(socket) => {
                        self.add_recv(socket, &mut actions);
                        assert(actions@ =~= Seq::<Action>::empty() + actions@);
                    },
                    None => {},
                }
            },
        }
        actions
    }

    /// Takes back the operation under `token`, whose entry the ring had no
    /// room for, and its buffer. It says whether `token` named an operation.
    pub fn cancel(&mut self, token: u64) -> (found: bool)
        ensures
            found == old(self)@.pending.contains_key(token),
            final(self)@ == echo_cancel_step(old(self)@, token),
            echo_consistent(old(self)@) ==> echo_consistent(final(self)@),
    {
        proof {
            if echo_consistent(self@) && self@.pending.contains_key(token) {
                lemma_resolve_keeps_books(self@.pending, self@.next_token, self@.arena, token);
            }
        }
        match self.registry.resolve(token) {
            Ok(pending) => {
                match pending.op {
                    Operation::Read(buffer) => {
                        self.arena.release(buffer);
                    },
                    Operation::Write(buffer) => {
                        self.arena.release(buffer);
                    },
                    Operation::Accept => {},
                }
                true
            },
            Err(_) => false,
        }
    }

    /// The bytes of the buffer of the operation in flight under `token`, if
    /// it has one: what a send sends, or what a receive has brought.
    pub fn buffer(&self, token: u64) -> (r: Option<&[u8]>)
        ensures
            match buffer_of(self@.pending, token) {
                Some(b) => r is Some && r->Some_0@ == b.bytes,
                None => r is None,
            },
    {
        self.registry.buffer(token)
    }

    /// Copies `bytes` to the start of the buffer of the receive in flight
    /// under `token`, and gives their number. Where `token` names no receive
    /// in flight, nothing changes.
    pub fn receive(&mut self, token: u64, bytes: &[u8]) -> (r: Option<usize>)
        ensures
            match read_buffer(old(self)@.pending, token) {
                Some(b) => {
                    &&& r == Some(filled_len(b.bytes, bytes@) as usize)
                    &&& final(self)@ == (EchoView {
                        pending: old(self)@.pending.insert(
                            token,
                            PendingView {
                                op: OperationView::Read(
                                    BufferView { bytes: filled(b.bytes, bytes@), ..b },
                                ),
                                ..old(self)@.pending[token]
                            },
                        ),
                        ..old(self)@
                    })
                },
                None => r is None && final(self)@ == old(self)@,
            },
            echo_consistent(old(self)@) ==> echo_consistent(final(self)@),
    {
        proof {
            if echo_consistent(self@) {
                lemma_receive_keeps_books(
                    self@.pending,
                    self@.next_token,
                    self@.arena,
                    token,
                    bytes@,
                );
            }
        }
        self.registry.fill(token, bytes)
    }

    /// The number of operations in flight.
    pub fn pending_count(&self) -> (n: usize)
        ensures
            n == self@.pending.len(),
    {
        proof {
            assert(self@.pending.dom() =~= self.registry.pending().dom());
        }
        self.registry.len()
    }

    /// Whether slot `id` of the arena is held by a buffer.
    pub fn buffer_held(&self, id: usize) -> (b: bool)
        ensures
            b == (id < self@.arena.len() && self@.arena[id as int]),
    {
        self.arena.is_held(id)
    }
}

} // verus!
