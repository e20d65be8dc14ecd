//! Submission entries: what the reactor asks the ring to do, as plain values.

use vstd::prelude::*;

verus! {

/// What an entry asks for. `NULL` asks for nothing: it marks an entry that was
/// made and not yet set.
#[derive(Debug, Clone, Copy, PartialEq, Eq, Structural)]
pub enum SocketOpcode {
    Accept,
    Recv,
    Send,
    NULL,
}

/// One request to the ring. The buffer of a `Recv` or `Send` is the one that
/// the pending operation under the token `user_data` owns; `len` is how many
/// of its bytes the request is about.
#[derive(Debug, Clone, Copy, PartialEq, Eq, Structural)]
pub struct Entry {
    pub opcode: SocketOpcode,
    pub fd: i32,
    pub len: usize,
    pub flags: i32,
    pub user_data: u64,
}

impl Entry {
    /// An entry that asks for nothing yet, on no socket.
    pub fn new() -> (e: Entry)
        ensures
            e == (Entry { opcode: SocketOpcode::NULL, fd: -1i32, len: 0, flags: 0, user_data: 0 }),
    {
        Entry { opcode: SocketOpcode::NULL, fd: -1, len: 0, flags: 0, user_data: 0 }
    }

    /// Makes the entry an accept on the listening socket `fd`.
    pub fn set_accept(&mut self, fd: i32) -> (r: &mut Self)
        ensures
            *final(self) == *final(r),
            *r == (Entry { opcode: SocketOpcode::Accept, fd, ..*old(self) }),
    {
        self.opcode = SocketOpcode::Accept;
        self.fd = fd;
        self
    }

    /// Makes the entry a receive of up to `len` bytes from socket `fd`.
    pub fn set_recv(&mut self, fd: i32, len: usize, flags: i32) -> (r: &mut Self)
        ensures
            *final(self) == *final(r),
            *r == (Entry { opcode: SocketOpcode::Recv, fd, len, flags, ..*old(self) }),
    {
        self.opcode = SocketOpcode::Recv;
        self.fd = fd;
        self.len = len;
        self.flags = flags;
        self
    }

    /// Makes the entry a send of `len` bytes to socket `fd`.
    pub fn set_send(&mut self, fd: i32, len: usize, flags: i32) -> (r: &mut Self)
        ensures
            *final(self) == *final(r),
            *r == (Entry { opcode: SocketOpcode::Send, fd, len, flags, ..*old(self) }),
    {
        self.opcode = SocketOpcode::Send;
        self.fd = fd;
        self.len = len;
        self.flags = flags;
        self
    }

    /// Sets the token that the completion of this entry will name.
    pub fn set_user_data(&mut self, user_data: u64) -> (r: &mut Self)
        ensures
            *final(self) == *final(r),
            *r == (Entry { user_data, ..*old(self) }),
    {
        self.user_data = user_data;
        self
    }
}

/// The accept entry for the listening socket `fd` under `token`.
pub open spec fn accept_entry(fd: i32, token: u64) -> Entry {
    Entry { opcode: SocketOpcode::Accept, fd, len: 0, flags: 0, user_data: token }
}

/// The receive entry for socket `fd` under `token`, for up to `len` bytes.
pub open spec fn recv_entry(fd: i32, len: usize, token: u64) -> Entry {
    Entry { opcode: SocketOpcode::Recv, fd, len, flags: 0, user_data: token }
}

/// The send entry for socket `fd` under `token`, for `len` bytes.
pub open spec fn send_entry(fd: i32, len: usize, token: u64) -> Entry {
    Entry { opcode: SocketOpcode::Send, fd, len, flags: 0, user_data: token }
}

} // verus!
