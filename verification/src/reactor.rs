//! The reactor's decisions: what a completion changes, and which operations
//! to put in flight next. The caller owns the ring: it submits the entries
//! that `schedule` hands out and feeds each completion to `handle_completion`.

use vstd::prelude::*;
use crate::arena::{BufferArena, BufferView, first_free, filled, filled_len, lemma_first_free};
use crate::connection::{
    Connection, ConnectionView, WebSocketState, read_step, keepalive_step,
    DEFAULT_PING_TIMEOUT_MS,
};
use crate::entry::{Entry, accept_entry, recv_entry, send_entry};
use crate::books::{
    books_agree, released, lemma_resolve_keeps_books, lemma_issue_keeps_books,
    lemma_receive_keeps_books,
};
use crate::error::{WebSocketError, Fault};
use crate::registry::{
    Operation, OperationRegistry, OperationView, PendingOperation, PendingView, buffer_of,
    read_buffer, WRITE_BIT,
};

verus! {

/// The connection id under which the listener's operations run.
pub const LISTENER: u64 = 0;

/// A connection with what the reactor notes of it.
#[derive(Debug)]
pub struct Client {
    id: u64,
    conn: Connection,
    read_wanted: bool,
    writing: bool,
}

/// A connection of the reactor as a mathematical value.
pub struct ClientView {
    /// The id of the connection; the operations it issues carry it.
    pub id: u64,
    /// The protocol state of the connection.
    pub conn: ConnectionView,
    /// Whether a read is to be put in flight for it.
    pub read_wanted: bool,
    /// Whether a write of it is in flight.
    pub writing: bool,
}

impl View for Client {
    type V = ClientView;

    closed spec fn view(&self) -> ClientView {
        ClientView {
            id: self.id,
            conn: self.conn@,
            read_wanted: self.read_wanted,
            writing: self.writing,
        }
    }
}

/// What the caller is to do for the reactor.
#[derive(Debug, Clone, Copy, PartialEq, Eq, Structural)]
pub enum Action {
    /// Put this entry on the ring.
    Submit(Entry),
    /// Close this socket: its connection is gone.
    Close(i32),
}

/// What a completion led to.
#[derive(Debug)]
pub struct Outcome {
    /// The socket to close, where the connection was taken down.
    pub close: Option<i32>,
    /// What went wrong, where something did.
    pub error: Option<WebSocketError>,
}

/// What a completion led to, as a mathematical value.
pub struct OutcomeView {
    pub close: Option<i32>,
    pub fault: Option<Fault>,
}

impl View for Outcome {
    type V = OutcomeView;

    open spec fn view(&self) -> OutcomeView {
        OutcomeView {
            close: self.close,
            fault: match self.error {
                Some(e) => Some(e@),
                None => None,
            },
        }
    }
}

/// The reactor's bookkeeping.
pub struct Reactor {
    registry: OperationRegistry,
    arena: BufferArena,
    clients: Vec<Client>,
    listener_fd: i32,
    accept_armed: bool,
    next_connection_id: u64,
    buffer_size: usize,
    ping_timeout: u64,
}

/// The reactor as a mathematical value.
pub struct ReactorView {
    /// The operations in flight, by token.
    pub pending: Map<u64, PendingView>,
    /// Where the token counter stands. A token is the counter's value, with
    /// the high bit set for a write.
    pub next_token: u64,
    /// For each slot of the arena, whether a buffer holds it.
    pub arena: Seq<bool>,
    /// The live connections, oldest first.
    pub connections: Seq<ClientView>,
    /// The listening socket.
    pub listener_fd: i32,
    /// Whether an accept is in flight.
    pub accept_armed: bool,
    /// The id that the next connection gets.
    pub next_connection_id: u64,
    /// The size of the buffers that reads use, and the most that one write takes.
    pub buffer_size: usize,
    /// The keepalive interval that new connections get.
    pub ping_timeout: u64,
}

impl View for Reactor {
    type V = ReactorView;

    closed spec fn view(&self) -> ReactorView {
        ReactorView {
            pending: self.registry.views(),
            next_token: self.registry.next_token(),
            arena: self.arena@,
            connections: self.clients@.map_values(|s: Client| s@),
            listener_fd: self.listener_fd,
            accept_armed: self.accept_armed,
            next_connection_id: self.next_connection_id,
            buffer_size: self.buffer_size,
            ping_timeout: self.ping_timeout,
        }
    }
}

/// The index of the first connection, at or behind `from`, with the id `id`.
pub open spec fn index_of(connections: Seq<ClientView>, id: u64, from: int) -> Option<int>
    decreases connections.len() - from,
{
    if from < 0 || from >= connections.len() {
        None
    } else if connections[from].id == id {
        Some(from)
    } else {
        index_of(connections, id, from + 1)
    }
}

/// The outcome that nothing is to be closed and nothing went wrong.
pub open spec fn quiet() -> OutcomeView {
    OutcomeView { close: None, fault: None }
}

/// The reactor without its connection at index `i`.
pub open spec fn without(v: ReactorView, i: int) -> ReactorView {
    ReactorView { connections: v.connections.remove(i), ..v }
}

/// The reactor with `client` in place of its connection at index `i`.
pub open spec fn with_client(v: ReactorView, i: int, client: ClientView) -> ReactorView {
    ReactorView { connections: v.connections.update(i, client), ..v }
}

/// What the completion of an accept with the result `res` makes of the
/// reactor. A socket that was accepted becomes a connection that awaits its
/// handshake and wants a read; where no connection id is left for it, it is
/// to be closed. A negative result is reported and changes nothing.
pub open spec fn accept_done(v: ReactorView, res: i32, now: u64) -> (ReactorView, OutcomeView) {
    if res < 0 {
        (v, OutcomeView { close: None, fault: Some(Fault::Io(res)) })
    } else if v.next_connection_id == u64::MAX {
        (v, OutcomeView { close: Some(res), fault: Some(Fault::Exhausted) })
    } else {
        (
            ReactorView {
                connections: v.connections.push(
                    ClientView {
                        id: v.next_connection_id,
                        conn: ConnectionView {
                            fd: res,
                            state: WebSocketState::Handshake,
                            outbound: Seq::empty(),
                            last_ping: now,
                            pong_pending: false,
                            ping_timeout: v.ping_timeout,
                        },
                        read_wanted: true,
                        writing: false,
                    },
                ),
                next_connection_id: (v.next_connection_id + 1) as u64,
                ..v
            },
            quiet(),
        )
    }
}

/// How many bytes of a buffer of `len` bytes an operation with the result
/// `res` was about: as many as it says, and no more than the buffer has.
pub open spec fn transfer_len(res: i32, len: int) -> int {
    if res <= 0 {
        0
    } else if res <= len {
        res as int
    } else {
        len
    }
}

/// What the completion of a read makes of the reactor, once its buffer is
/// released: `bytes` is what the buffer held and `res` the result. A negative
/// result or an end of stream takes the connection down. Bytes go to the
/// connection, which is taken down if they end in an error or close it, and
/// wants another read if they do not. A read of a connection that is gone
/// changes nothing.
pub open spec fn read_done(
    v: ReactorView,
    connection: u64,
    bytes: Seq<u8>,
    res: i32,
    now: u64,
) -> (ReactorView, OutcomeView) {
    match index_of(v.connections, connection, 0) {
        None => (v, quiet()),
        Some(i) => {
            let client = v.connections[i];
            if res < 0 {
                (
                    without(v, i),
                    OutcomeView { close: Some(client.conn.fd), fault: Some(Fault::Io(res)) },
                )
            } else if res == 0 {
                (without(v, i), OutcomeView { close: Some(client.conn.fd), fault: None })
            } else {
                let data = bytes.take(transfer_len(res, bytes.len() as int));
                let (conn, fault) = read_step(client.conn, data, now);
                if fault is Some || conn.state == WebSocketState::Closed {
                    (without(v, i), OutcomeView { close: Some(client.conn.fd), fault })
                } else {
                    (with_client(v, i, ClientView { conn, read_wanted: true, ..client }), quiet())
                }
            }
        },
    }
}

/// What the completion of a write makes of the reactor, once its buffer is
/// released: `bytes` is what the buffer held and `res` the result. A negative
/// result takes the connection down. Any other leaves the connection free to
/// write again and wanting a read, with the bytes that were not sent back in
/// front of what waits to be sent. A write of a connection that is gone
/// changes nothing.
pub open spec fn write_done(v: ReactorView, connection: u64, bytes: Seq<u8>, res: i32) -> (
    ReactorView,
    OutcomeView,
) {
    match index_of(v.connections, connection, 0) {
        None => (v, quiet()),
        Some(i) => {
            let client = v.connections[i];
            if res < 0 {
                (
                    without(v, i),
                    OutcomeView { close: Some(client.conn.fd), fault: Some(Fault::Io(res)) },
                )
            } else {
                let sent = transfer_len(res, bytes.len() as int);
                (
                    with_client(
                        v,
                        i,
                        ClientView {
                            conn: ConnectionView {
                                outbound: bytes.skip(sent) + client.conn.outbound,
                                ..client.conn
                            },
                            writing: false,
                            read_wanted: true,
                            ..client
                        },
                    ),
                    quiet(),
                )
            }
        },
    }
}

/// What the completion that names `token`, with the result `res`, at time
/// `now`, makes of the reactor. The operation leaves the registry and its
/// buffer goes back to the arena, whatever the result. A token that no
/// operation has changes nothing and is reported as `UnknownToken`.
pub open spec fn complete_step(v: ReactorView, token: u64, res: i32, now: u64) -> (
    ReactorView,
    OutcomeView,
) {
    if !v.pending.contains_key(token) {
        (v, OutcomeView { close: None, fault: Some(Fault::UnknownToken(token)) })
    } else {
        let p = v.pending[token];
        let rest = ReactorView { pending: v.pending.remove(token), ..v };
        match p.op {
            OperationView::Accept => accept_done(
                ReactorView { accept_armed: false, ..rest },
                res,
                now,
            ),
            OperationView::Read(b) => read_done(
                ReactorView { arena: released(rest.arena, b.id), ..rest },
                p.connection,
                b.bytes,
                res,
                now,
            ),
            OperationView::Write(b) => write_done(
                ReactorView { arena: released(rest.arena, b.id), ..rest },
                p.connection,
                b.bytes,
                res,
            ),
        }
    }
}

/// What arming the accept makes of the reactor, and the entry to submit.
/// Nothing happens while an accept is in flight or no token is left.
pub open spec fn accept_step(v: ReactorView) -> (ReactorView, Seq<Action>) {
    if v.accept_armed || v.next_token >= WRITE_BIT {
        (v, Seq::empty())
    } else {
        (
            ReactorView {
                pending: v.pending.insert(
                    v.next_token,
                    PendingView { op: OperationView::Accept, connection: LISTENER },
                ),
                next_token: (v.next_token + 1) as u64,
                accept_armed: true,
                ..v
            },
            seq![Action::Submit(accept_entry(v.listener_fd, v.next_token))],
        )
    }
}

/// The slot of the arena that the next operation with a buffer gets, where a
/// token and a slot are left for one.
pub open spec fn free_buffer(v: ReactorView) -> Option<int> {
    if v.next_token >= WRITE_BIT {
        None
    } else {
        first_free(v.arena, 0)
    }
}

/// A buffer of the reactor's size, all zero.
pub open spec fn blank(v: ReactorView) -> Seq<u8> {
    Seq::new(v.buffer_size as nat, |j: int| 0u8)
}

/// How many of the bytes that wait to be sent one write takes.
pub open spec fn write_len(v: ReactorView, outbound: Seq<u8>) -> int {
    if outbound.len() <= v.buffer_size {
        outbound.len() as int
    } else {
        v.buffer_size as int
    }
}

/// What arming a write for the connection at index `i` makes of the reactor,
/// and the entry to submit. The write takes the first bytes that wait to be
/// sent, `buffer_size` at most, in a buffer of just their number. Nothing happens while a write of the
/// connection is in flight, while nothing waits, or while no buffer or token
/// is to be had.
pub open spec fn write_step(v: ReactorView, i: int) -> (ReactorView, Seq<Action>) {
    let client = v.connections[i];
    if client.writing || client.conn.outbound.len() == 0 || v.buffer_size == 0 {
        (v, Seq::empty())
    } else {
        match free_buffer(v) {
            None => (v, Seq::empty()),
            Some(id) => {
                let n = write_len(v, client.conn.outbound);
                let buffer = BufferView { id: id as usize, bytes: client.conn.outbound.take(n) };
                let token = (v.next_token + WRITE_BIT) as u64;
                (
                    ReactorView {
                        pending: v.pending.insert(
                            token,
                            PendingView { op: OperationView::Write(buffer), connection: client.id },
                        ),
                        next_token: (v.next_token + 1) as u64,
                        arena: v.arena.update(id, true),
                        connections: v.connections.update(
                            i,
                            ClientView {
                                conn: ConnectionView {
                                    outbound: client.conn.outbound.skip(n),
                                    ..client.conn
                                },
                                writing: true,
                                ..client
                            },
                        ),
                        ..v
                    },
                    seq![Action::Submit(send_entry(client.conn.fd, n as usize, token))],
                )
            },
        }
    }
}

/// What arming a read for the connection at index `i` makes of the reactor,
/// and the entry to submit. Nothing happens while the connection wants no
/// read, or while no buffer or token is to be had: the want stays.
pub open spec fn arm_read_step(v: ReactorView, i: int) -> (ReactorView, Seq<Action>) {
    let client = v.connections[i];
    if !client.read_wanted || v.buffer_size == 0 {
        (v, Seq::empty())
    } else {
        match free_buffer(v) {
            None => (v, Seq::empty()),
            Some(id) => (
                ReactorView {
                    pending: v.pending.insert(
                        v.next_token,
                        PendingView {
                            op: OperationView::Read(
                                BufferView { id: id as usize, bytes: blank(v) },
                            ),
                            connection: client.id,
                        },
                    ),
                    next_token: (v.next_token + 1) as u64,
                    arena: v.arena.update(id, true),
                    connections: v.connections.update(
                        i,
                        ClientView { read_wanted: false, ..client },
                    ),
                    ..v
                },
                seq![Action::Submit(recv_entry(client.conn.fd, v.buffer_size, v.next_token))],
            ),
        }
    }
}

/// What seeing to the connection at index `i`, at time `now`, makes of the
/// reactor, what the caller is to do, and whether the connection was taken
/// down. The keepalive is checked first. A connection whose keepalive has
/// lapsed, or that is closed, is taken down and its socket is to be closed.
/// Any other gets a write armed, then a read.
pub open spec fn see_to_step(v: ReactorView, i: int, now: u64) -> (ReactorView, Seq<Action>, bool) {
    let client = v.connections[i];
    let (conn, fault) = keepalive_step(client.conn, now);
    if fault is Some || conn.state == WebSocketState::Closed {
        (without(v, i), seq![Action::Close(client.conn.fd)], true)
    } else {
        let (v1, a1) = write_step(with_client(v, i, ClientView { conn, ..client }), i);
        let (v2, a2) = arm_read_step(v1, i);
        (v2, a1 + a2, false)
    }
}

/// What scheduling makes of the reactor from the connection at index `i` on,
/// at time `now`, and what the caller is to do: each connection is seen to
/// in turn.
pub open spec fn schedule_from(v: ReactorView, i: int, now: u64) -> (ReactorView, Seq<Action>)
    decreases v.connections.len() - i,
{
    if i < 0 || i >= v.connections.len() {
        (v, Seq::empty())
    } else {
        let (v1, acts, removed) = see_to_step(v, i, now);
        let (last, rest) = schedule_from(
            v1,
            if removed {
                i
            } else {
                i + 1
            },
            now,
        );
        (last, acts + rest)
    }
}

/// What scheduling at time `now` makes of the reactor, and what the caller
/// is to do, in order: the accept is armed, then each connection is seen to.
pub open spec fn schedule_step(v: ReactorView, now: u64) -> (ReactorView, Seq<Action>) {
    let (v1, a1) = accept_step(v);
    let (v2, a2) = schedule_from(v1, 0, now);
    (v2, a1 + a2)
}

/// What taking back the operation under `token`, which could not be
/// submitted, makes of the reactor. The operation leaves the registry and its
/// buffer goes back to the arena. An accept is no longer armed; a read is
/// wanted again; the bytes of a write go back in front of what waits to be
/// sent. A token that no operation has changes nothing.
pub open spec fn cancel_step(v: ReactorView, token: u64) -> ReactorView {
    if !v.pending.contains_key(token) {
        v
    } else {
        let p = v.pending[token];
        let rest = ReactorView { pending: v.pending.remove(token), ..v };
        match p.op {
            OperationView::Accept => ReactorView { accept_armed: false, ..rest },
            OperationView::Read(b) => {
                let freed = ReactorView { arena: released(rest.arena, b.id), ..rest };
                match index_of(v.connections, p.connection, 0) {
                    None => freed,
                    Some(i) => with_client(
                        freed,
                        i,
                        ClientView { read_wanted: true, ..v.connections[i] },
                    ),
                }
            },
            OperationView::Write(b) => {
                let freed = ReactorView { arena: released(rest.arena, b.id), ..rest };
                match index_of(v.connections, p.connection, 0) {
                    None => freed,
                    Some(i) => {
                        let client = v.connections[i];
                        with_client(
                            freed,
                            i,
                            ClientView {
                                conn: ConnectionView {
                                    outbound: b.bytes + client.conn.outbound,
                                    ..client.conn
                                },
                                writing: false,
                                ..client
                            },
                        )
                    },
                }
            },
        }
    }
}

/// The index of the first connection, at or behind `from`, on the socket `fd`.
pub open spec fn index_of_fd(connections: Seq<ClientView>, fd: i32, from: int) -> Option<int>
    decreases connections.len() - from,
{
    if from < 0 || from >= connections.len() {
        None
    } else if connections[from].conn.fd == fd {
        Some(from)
    } else {
        index_of_fd(connections, fd, from + 1)
    }
}

/// Whether the reactor's books agree: the tokens are in order, each buffer
/// has one owner, and the arena has no more slots than can be counted.
pub open spec fn consistent(v: ReactorView) -> bool {
    books_agree(v.pending, v.next_token, v.arena)
}

/// A completion keeps the books in agreement.
pub proof fn lemma_complete_keeps_books(v: ReactorView, token: u64, res: i32, now: u64)
    requires
        consistent(v),
    ensures
        consistent(complete_step(v, token, res, now).0),
{
    if v.pending.contains_key(token) {
        lemma_resolve_keeps_books(v.pending, v.next_token, v.arena, token);
    }
}

/// Taking an operation back keeps the books in agreement.
pub proof fn lemma_cancel_keeps_books(v: ReactorView, token: u64)
    requires
        consistent(v),
    ensures
        consistent(cancel_step(v, token)),
{
    if v.pending.contains_key(token) {
        lemma_resolve_keeps_books(v.pending, v.next_token, v.arena, token);
    }
}

/// Seeing to a connection keeps the books in agreement.
pub proof fn lemma_see_to_keeps_books(v: ReactorView, i: int, now: u64)
    requires
        consistent(v),
        0 <= i < v.connections.len(),
    ensures
        consistent(see_to_step(v, i, now).0),
{
    let client = v.connections[i];
    let (conn, fault) = keepalive_step(client.conn, now);
    if !(fault is Some || conn.state == WebSocketState::Closed) {
        let v0 = with_client(v, i, ClientView { conn, ..client });
        assert(consistent(v0));
        let s0 = v0.connections[i];
        let v1 = write_step(v0, i).0;
        if !(s0.writing || s0.conn.outbound.len() == 0 || v0.buffer_size == 0) && free_buffer(v0)
            is Some {
            let n = write_len(v0, s0.conn.outbound);
            let id = free_buffer(v0)->0;
            lemma_first_free(v0.arena, 0);
            lemma_issue_keeps_books(
                v0.pending,
                v0.next_token,
                v0.arena,
                PendingView {
                    op: OperationView::Write(
                        BufferView { id: id as usize, bytes: s0.conn.outbound.take(n) },
                    ),
                    connection: s0.id,
                },
            );
        }
        assert(consistent(v1));
        let s1 = v1.connections[i];
        if !(!s1.read_wanted || v1.buffer_size == 0) && free_buffer(v1) is Some {
            let id = free_buffer(v1)->0;
            lemma_first_free(v1.arena, 0);
            lemma_issue_keeps_books(
                v1.pending,
                v1.next_token,
                v1.arena,
                PendingView {
                    op: OperationView::Read(BufferView { id: id as usize, bytes: blank(v1) }),
                    connection: s1.id,
                },
            );
        }
    }
}

/// Scheduling from a connection on keeps the books in agreement.
pub proof fn lemma_schedule_from_keeps_books(v: ReactorView, i: int, now: u64)
    requires
        consistent(v),
    ensures
        consistent(schedule_from(v, i, now).0),
    decreases v.connections.len() - i,
{
    if 0 <= i < v.connections.len() {
        lemma_see_to_keeps_books(v, i, now);
        let (v1, acts, removed) = see_to_step(v, i, now);
        lemma_schedule_from_keeps_books(
            v1,
            if removed {
                i
            } else {
                i + 1
            },
            now,
        );
    }
}

/// Scheduling keeps the books in agreement.
pub proof fn lemma_schedule_keeps_books(v: ReactorView, now: u64)
    requires
        consistent(v),
    ensures
        consistent(schedule_step(v, now).0),
{
    let v1 = accept_step(v).0;
    if !(v.accept_armed || v.next_token >= WRITE_BIT) {
        lemma_issue_keeps_books(
            v.pending,
            v.next_token,
            v.arena,
            PendingView { op: OperationView::Accept, connection: LISTENER },
        );
    }
    lemma_schedule_from_keeps_books(v1, 0, now);
}

impl Reactor {
    /// A reactor for the listening socket `listener_fd`, with an arena of
    /// `buffers` buffers of `buffer_size` bytes, no connection and nothing in
    /// flight.
    pub fn new(listener_fd: i32, buffers: usize, buffer_size: usize) -> (r: Reactor)
        ensures
            r@ == (ReactorView {
                pending: Map::empty(),
                next_token: 0,
                arena: Seq::new(buffers as nat, |i: int| false),
                connections: Seq::empty(),
                listener_fd,
                accept_armed: false,
                next_connection_id: 1,
                buffer_size,
                ping_timeout: DEFAULT_PING_TIMEOUT_MS,
            }),
            consistent(r@),
    {
        let r = Reactor {
            registry: OperationRegistry::new(),
            arena: BufferArena::new(buffers),
            clients: Vec::new(),
            listener_fd,
            accept_armed: false,
            next_connection_id: 1,
            buffer_size,
            ping_timeout: DEFAULT_PING_TIMEOUT_MS,
        };
        assert(r@.pending =~= Map::empty());
        assert(r@.connections =~= Seq::empty());
        r
    }

    fn find(&self, id: u64) -> (r: Option<usize>)
        ensures
            match r {
                Some(i) => index_of(self@.connections, id, 0) == Some(i as int) && i
                    < self@.connections.len(),
                None => index_of(self@.connections, id, 0) is None,
            },
    {
        let mut i: usize = 0;
        while i < self.clients.len()
            invariant
                i <= self.clients.len(),
                self@.connections.len() == self.clients@.len(),
                index_of(self@.connections, id, 0) == index_of(self@.connections, id, i as int),
            decreases self.clients.len() - i,
        {
            if self.clients[i].id == id {
                return Some(i);
            }
            i += 1;
        }
        None
    }

    fn take_down(&mut self, i: usize) -> (fd: i32)
        requires
            i < old(self)@.connections.len(),
        ensures
            final(self)@ == without(old(self)@, i as int),
            fd == old(self)@.connections[i as int].conn.fd,
    {
        let client = self.clients.remove(i);
        assert(self@.connections =~= old(self)@.connections.remove(i as int));
        client.conn.fd()
    }

    fn accept_done(&mut self, res: i32, now: u64) -> (out: Outcome)
        ensures
            final(self)@ == accept_done(old(self)@, res, now).0,
            out@ == accept_done(old(self)@, res, now).1,
    {
        if res < 0 {
            return Outcome { close: None, error: Some(WebSocketError::IoError(res)) };
        }
        if self.next_connection_id == u64::MAX {
            return Outcome { close: Some(res), error: Some(WebSocketError::ResourceExhausted) };
        }
        let mut conn = Connection::new(res, now);
        conn.set_ping_timeout(self.ping_timeout);
        let client = Client { id: self.next_connection_id, conn, read_wanted: true, writing: false };
        self.clients.push(client);
        self.next_connection_id = self.next_connection_id + 1;
        assert(self@.connections =~= accept_done(old(self)@, res, now).0.connections);
        Outcome { close: None, error: None }
    }

    fn read_done(&mut self, connection: u64, bytes: &[u8], res: i32, now: u64) -> (out: Outcome)
        ensures
            final(self)@ == read_done(old(self)@, connection, bytes@, res, now).0,
            out@ == read_done(old(self)@, connection, bytes@, res, now).1,
    {
        let i = match self.find(connection) {
            Some(i) => i,
            None => {
                return Outcome { close: None, error: None };
            },
        };
        if res < 0 {
            let fd = self.take_down(i);
            return Outcome { close: Some(fd), error: Some(WebSocketError::IoError(res)) };
        }
        if res == 0 {
            let fd = self.take_down(i);
            return Outcome { close: Some(fd), error: None };
        }
        let n: usize = if res as usize <= bytes.len() {
            res as usize
        } else {
            bytes.len()
        };
        let data = vstd::slice::slice_subrange(bytes, 0, n);
        assert(data@ =~= bytes@.take(transfer_len(res, bytes@.len() as int)));
        let ghost before = self@.connections[i as int];
        let fd = self.clients[i].conn.fd();
        let r = self.clients[i].conn.on_read(data, now);
        proof {
            assert(self.clients@.len() == old(self).clients@.len());
            assert(forall|j: int|
                0 <= j < self.clients@.len() && j != i ==> self.clients@[j] == old(self).clients@[j]);
            assert(self.clients@[i as int]@.conn == read_step(before.conn, data@, now).0);
            assert(self.clients@[i as int]@.id == before.id);
            assert(self@.connections =~= old(self)@.connections.update(
                i as int,
                ClientView { conn: read_step(before.conn, data@, now).0, ..before },
            ));
        }
        if r.is_err() || self.clients[i].conn.is_closed() {
            self.take_down(i);
            assert(self@.connections =~= old(self)@.connections.remove(i as int));
            let error = match r {
                Ok(()) => None,
                Err(e) => Some(e),
            };
            Outcome { close: Some(fd), error }
        } else {
            self.clients[i].read_wanted = true;
            assert(self@.connections =~= old(self)@.connections.update(
                i as int,
                ClientView { conn: self@.connections[i as int].conn, read_wanted: true, ..before },
            ));
            Outcome { close: None, error: None }
        }
    }

    fn write_done(&mut self, connection: u64, bytes: &[u8], res: i32) -> (out: Outcome)
        ensures
            final(self)@ == write_done(old(self)@, connection, bytes@, res).0,
            out@ == write_done(old(self)@, connection, bytes@, res).1,
    {
        let i = match self.find(connection) {
            Some(i) => i,
            None => {
                return Outcome { close: None, error: None };
            },
        };
        if res < 0 {
            let fd = self.take_down(i);
            return Outcome { close: Some(fd), error: Some(WebSocketError::IoError(res)) };
        }
        let sent: usize = if res as usize <= bytes.len() {
            res as usize
        } else {
            bytes.len()
        };
        let ghost before = self@.connections[i as int];
        let unsent = vstd::slice::slice_subrange(bytes, sent, bytes.len());
        assert(unsent@ =~= bytes@.skip(sent as int));
        self.clients[i].conn.requeue(unsent);
        self.clients[i].writing = false;
        self.clients[i].read_wanted = true;
        assert(self@.connections =~= old(self)@.connections.update(
            i as int,
            ClientView {
                conn: ConnectionView {
                    outbound: bytes@.skip(sent as int) + before.conn.outbound,
                    ..before.conn
                },
                writing: false,
                read_wanted: true,
                ..before
            },
        ));
        Outcome { close: None, error: None }
    }

    /// Takes in the completion that names `token`, with the result `res`, at
    /// time `now`. The outcome names the socket to close, if a connection was
    /// taken down, and what went wrong, if anything did.
    pub fn handle_completion(&mut self, token: u64, res: i32, now: u64) -> (out: Outcome)
        ensures
            final(self)@ == complete_step(old(self)@, token, res, now).0,
            out@ == complete_step(old(self)@, token, res, now).1,
            consistent(old(self)@) ==> consistent(final(self)@),
    {
        proof {
            if consistent(self@) {
                lemma_complete_keeps_books(self@, token, res, now);
            }
        }
        let pending = match self.registry.resolve(token) {
            Ok(p) => p,
            Err(e) => {
                return Outcome { close: None, error: Some(e) };
            },
        };
        let connection = pending.connection;
        match pending.op {
            Operation::Accept => {
                self.accept_armed = false;
                self.accept_done(res, now)
            },
            Operation::Read(buffer) => {
                let out = self.read_done(connection, buffer.as_slice(), res, now);
                self.arena.release(buffer);
                out
            },
            Operation::Write(buffer) => {
                let out = self.write_done(connection, buffer.as_slice(), res);
                self.arena.release(buffer);
                out
            },
        }
    }

    fn arm_accept(&mut self, actions: &mut Vec<Action>)
        ensures
            final(self)@ == accept_step(old(self)@).0,
            final(actions)@ == old(actions)@ + accept_step(old(self)@).1,
    {
        if self.accept_armed || !self.registry.has_token() {
            assert(actions@ =~= old(actions)@ + Seq::<Action>::empty());
            return ;
        }
        let operation = PendingOperation { op: Operation::Accept, connection: LISTENER };
        match self.registry.register(operation) {
            Ok(token) => {
                self.accept_armed = true;
                let mut entry = Entry::new();
                entry.set_accept(self.listener_fd).set_user_data(token);
                actions.push(Action::Submit(entry));
                assert(actions@ =~= old(actions)@ + accept_step(old(self)@).1);
            },
            Err(_) => {},
        }
    }

    fn arm_write(&mut self, i: usize, actions: &mut Vec<Action>)
        requires
            i < old(self)@.connections.len(),
        ensures
            final(self)@ == write_step(old(self)@, i as int).0,
            final(actions)@ == old(actions)@ + write_step(old(self)@, i as int).1,
    {
        let ghost client = self@.connections[i as int];
        if self.clients[i].writing || !self.clients[i].conn.has_outbound() || self.buffer_size == 0
            || !self.registry.has_token() {
            assert(actions@ =~= old(actions)@ + Seq::<Action>::empty());
            return ;
        }
        let n: usize = if self.clients[i].conn.outbound().len() <= self.buffer_size {
            self.clients[i].conn.outbound().len()
        } else {
            self.buffer_size
        };
        let mut buffer = match self.arena.acquire(n) {
            Ok(b) => b,
            Err(_) => {
                assert(actions@ =~= old(actions)@ + Seq::<Action>::empty());
                return ;
            },
        };
        let bytes = self.clients[i].conn.take_outbound(n);
        buffer.fill(bytes.as_slice());
        assert(buffer@.bytes =~= client.conn.outbound.take(n as int));
        let fd = self.clients[i].conn.fd();
        let id = self.clients[i].id;
        self.clients[i].writing = true;
        let operation = PendingOperation { op: Operation::Write(buffer), connection: id };
        match self.registry.register(operation) {
            Ok(token) => {
                let mut entry = Entry::new();
                entry.set_send(fd, n, 0).set_user_data(token);
                actions.push(Action::Submit(entry));
                proof {
                    let w = write_step(old(self)@, i as int);
                    assert(self@.connections =~= w.0.connections);
                    assert(actions@ =~= old(actions)@ + w.1);
                }
            },
            Err(_) => {},
        }
    }

    fn arm_read(&mut self, i: usize, actions: &mut Vec<Action>)
        requires
            i < old(self)@.connections.len(),
        ensures
            final(self)@ == arm_read_step(old(self)@, i as int).0,
            final(actions)@ == old(actions)@ + arm_read_step(old(self)@, i as int).1,
    {
        if !self.clients[i].read_wanted || self.buffer_size == 0 || !self.registry.has_token() {
            assert(actions@ =~= old(actions)@ + Seq::<Action>::empty());
            return ;
        }
        let buffer = match self.arena.acquire(self.buffer_size) {
            Ok(b) => b,
            Err(_) => {
                assert(actions@ =~= old(actions)@ + Seq::<Action>::empty());
                return ;
            },
        };
        let fd = self.clients[i].conn.fd();
        let id = self.clients[i].id;
        self.clients[i].read_wanted = false;
        let operation = PendingOperation { op: Operation::Read(buffer), connection: id };
        match self.registry.register(operation) {
            Ok(token) => {
                let mut entry = Entry::new();
                entry.set_recv(fd, self.buffer_size, 0).set_user_data(token);
                actions.push(Action::Submit(entry));
                proof {
                    let w = arm_read_step(old(self)@, i as int);
                    assert(self@.connections =~= w.0.connections);
                    assert(actions@ =~= old(actions)@ + w.1);
                }
            },
            Err(_) => {},
        }
    }

    /// Decides, at time `now`, what to put in flight: an accept where none
    /// is, and for each connection, after its keepalive check, a write of
    /// what waits to be sent and a read where one is wanted. What cannot be
    /// had now, for want of a buffer or a token, is left for the next call.
    pub fn schedule(&mut self, now: u64) -> (actions: Vec<Action>)
        ensures
            final(self)@ == schedule_step(old(self)@, now).0,
            actions@ == schedule_step(old(self)@, now).1,
            consistent(old(self)@) ==> consistent(final(self)@),
    {
        proof {
            if consistent(self@) {
                lemma_schedule_keeps_books(self@, now);
            }
        }
        let mut actions: Vec<Action> = Vec::new();
        self.arm_accept(&mut actions);
        let ghost start = self@;
        let ghost first = actions@;
        let mut i: usize = 0;
        assert(actions@ =~= first + Seq::<Action>::empty());
        while i < self.clients.len()
            invariant
                i <= self.clients.len(),
                self@.connections.len() == self.clients@.len(),
                schedule_from(start, 0, now).0 == schedule_from(self@, i as int, now).0,
                first + schedule_from(start, 0, now).1 == actions@ + schedule_from(
                    self@,
                    i as int,
                    now,
                ).1,
            decreases self.clients.len() - i,
        {
            let ghost before = self@;
            let ghost done = actions@;
            let removed = self.see_to(i, now, &mut actions);
            proof {
                let step = see_to_step(before, i as int, now);
                let next = if removed {
                    i as int
                } else {
                    i + 1
                };
                let rest = schedule_from(self@, next, now).1;
                assert(schedule_from(before, i as int, now).0 == schedule_from(self@, next, now).0);
                assert(schedule_from(before, i as int, now).1 =~= step.1 + rest);
                assert(actions@ + rest =~= done + (step.1 + rest));
            }
            if !removed {
                i += 1;
            }
        }
        proof {
            assert(actions@ + Seq::<Action>::empty() =~= actions@);
            assert(first + schedule_from(start, 0, now).1 =~= actions@);
        }
        actions
    }

    fn see_to(&mut self, i: usize, now: u64, actions: &mut Vec<Action>) -> (removed: bool)
        requires
            i < old(self)@.connections.len(),
        ensures
            final(self)@ == see_to_step(old(self)@, i as int, now).0,
            final(actions)@ == old(actions)@ + see_to_step(old(self)@, i as int, now).1,
            removed == see_to_step(old(self)@, i as int, now).2,
            removed ==> final(self)@.connections.len() + 1 == old(self)@.connections.len(),
            !removed ==> final(self)@.connections.len() == old(self)@.connections.len(),
    {
        let ghost before = self@;
        let ghost done = actions@;
        let ghost client = self@.connections[i as int];
        let fd = self.clients[i].conn.fd();
        let checked = self.clients[i].conn.check_ping_timeout(now);
        if checked.is_err() || self.clients[i].conn.is_closed() {
            self.take_down(i);
            actions.push(Action::Close(fd));
            proof {
                assert(self@.connections =~= before.connections.remove(i as int));
                assert(actions@ =~= done + seq![Action::Close(fd)]);
            }
            true
        } else {
            proof {
                assert(self@.connections =~= before.connections.update(
                    i as int,
                    ClientView { conn: keepalive_step(client.conn, now).0, ..client },
                ));
            }
            let ghost v0 = self@;
            self.arm_write(i, actions);
            let ghost v1 = self@;
            self.arm_read(i, actions);
            proof {
                let a1 = write_step(v0, i as int).1;
                let a2 = arm_read_step(v1, i as int).1;
                assert(actions@ =~= done + (a1 + a2));
            }
            false
        }
    }

    /// Takes back the operation under `token`, whose entry the ring had no
    /// room for, so that `schedule` issues it again. It says whether `token`
    /// named an operation.
    pub fn cancel(&mut self, token: u64) -> (found: bool)
        ensures
            found == old(self)@.pending.contains_key(token),
            final(self)@ == cancel_step(old(self)@, token),
            consistent(old(self)@) ==> consistent(final(self)@),
    {
        proof {
            if consistent(self@) {
                lemma_cancel_keeps_books(self@, token);
            }
        }
        let pending = match self.registry.resolve(token) {
            Ok(p) => p,
            Err(_) => {
                return false;
            },
        };
        let connection = pending.connection;
        match pending.op {
            Operation::Accept => {
                self.accept_armed = false;
            },
            Operation::Read(buffer) => {
                match self.find(connection) {
                    Some(i) => {
                        let ghost client = self@.connections[i as int];
                        self.clients[i].read_wanted = true;
                        assert(self@.connections =~= old(self)@.connections.update(
                            i as int,
                            ClientView { read_wanted: true, ..client },
                        ));
                    },
                    None => {},
                }
                self.arena.release(buffer);
            },
            Operation::Write(buffer) => {
                match self.find(connection) {
                    Some(i) => {
                        let ghost client = self@.connections[i as int];
                        self.clients[i].conn.requeue(buffer.as_slice());
                        self.clients[i].writing = false;
                        assert(self@.connections =~= old(self)@.connections.update(
                            i as int,
                            ClientView {
                                conn: ConnectionView {
                                    outbound: buffer@.bytes + client.conn.outbound,
                                    ..client.conn
                                },
                                writing: false,
                                ..client
                            },
                        ));
                    },
                    None => {},
                }
                self.arena.release(buffer);
            },
        }
        true
    }

    /// The bytes of the buffer of the operation in flight under `token`, if
    /// it has one: where a read is to put its bytes, or what a write sends.
    pub fn buffer(&self, token: u64) -> (r: Option<&[u8]>)
        ensures
            match buffer_of(self@.pending, token) {
                Some(b) => r is Some && r->Some_0@ == b.bytes,
                None => r is None,
            },
    {
        self.registry.buffer(token)
    }

    /// Copies `bytes` to the start of the buffer of the read in flight under
    /// `token`, as a read from the socket would, and gives their number.
    /// Where `token` names no read in flight, nothing changes.
    pub fn receive(&mut self, token: u64, bytes: &[u8]) -> (r: Option<usize>)
        ensures
            match read_buffer(old(self)@.pending, token) {
                Some(b) => {
                    &&& r == Some(filled_len(b.bytes, bytes@) as usize)
                    &&& final(self)@ == (ReactorView {
                        pending: old(self)@.pending.insert(
                            token,
                            PendingView {
                                op: OperationView::Read(
                                    BufferView { bytes: filled(b.bytes, bytes@), ..b },
                                ),
                                ..old(self)@.pending[token]
                            },
                        ),
                        ..old(self)@
                    })
                },
                None => r is None && final(self)@ == old(self)@,
            },
            consistent(old(self)@) ==> consistent(final(self)@),
    {
        proof {
            if consistent(self@) {
                lemma_receive_keeps_books(self@.pending, self@.next_token, self@.arena, token, bytes@);
            }
        }
        self.registry.fill(token, bytes)
    }

    /// Sets the keepalive interval, in milliseconds, that connections
    /// accepted from now on get.
    pub fn set_ping_timeout(&mut self, timeout: u64)
        ensures
            final(self)@ == (ReactorView { ping_timeout: timeout, ..old(self)@ }),
    {
        self.ping_timeout = timeout;
    }

    /// The number of live connections.
    pub fn connection_count(&self) -> (n: usize)
        ensures
            n == self@.connections.len(),
    {
        self.clients.len()
    }

    /// The number of operations in flight.
    pub fn pending_count(&self) -> (n: usize)
        ensures
            n == self@.pending.len(),
    {
        proof {
            assert(self@.pending.dom() =~= self.registry.pending().dom());
        }
        self.registry.len()
    }

    /// Whether an operation is in flight under `token`.
    pub fn is_pending(&self, token: u64) -> (b: bool)
        ensures
            b == self@.pending.contains_key(token),
    {
        self.registry.is_pending(token)
    }

    /// Whether slot `id` of the arena is held by a buffer.
    pub fn buffer_held(&self, id: usize) -> (b: bool)
        ensures
            b == (id < self@.arena.len() && self@.arena[id as int]),
    {
        self.arena.is_held(id)
    }

    /// The state of the first connection on the socket `fd`, if there is one.
    pub fn state_of(&self, fd: i32) -> (r: Option<WebSocketState>)
        ensures
            match index_of_fd(self@.connections, fd, 0) {
                Some(i) => r == Some(self@.connections[i].conn.state),
                None => r is None,
            },
    {
        let mut i: usize = 0;
        while i < self.clients.len()
            invariant
                i <= self.clients.len(),
                self@.connections.len() == self.clients@.len(),
                index_of_fd(self@.connections, fd, 0) == index_of_fd(
                    self@.connections,
                    fd,
                    i as int,
                ),
            decreases self.clients.len() - i,
        {
            if self.clients[i].conn.fd() == fd {
                return Some(self.clients[i].conn.state());
            }
            i += 1;
        }
        None
    }
}

} // verus!
