//! The error type shared by the protocol engine and the reactor.

use vstd::prelude::*;

verus! {

/// Why a connection, or one operation of it, failed.
#[derive(Debug)]
pub enum WebSocketError {
    /// The upgrade request carried no usable key, or the peer let the keepalive lapse.
    HandshakeError(String),
    /// An operation on the socket failed; holds the operating system's error number.
    IoError(i32),
    /// The upgrade request did not start with `GET`.
    NonGetRequest,
    /// A frame was malformed; holds the reason.
    ProtocolError(String),
    /// Bytes that had to be text were not UTF-8.
    Utf8Error(core::str::Utf8Error),
    /// The ring or the buffer arena is full for now.
    ResourceExhausted,
    /// A completion named a token that no pending operation has.
    UnknownToken(u64),
}

/// An error as a mathematical value: its kind and what it says.
pub enum Fault {
    Handshake(Seq<char>),
    Io(i32),
    NonGet,
    Protocol(Seq<char>),
    Utf8,
    Exhausted,
    UnknownToken(u64),
}

impl View for WebSocketError {
    type V = Fault;

    open spec fn view(&self) -> Fault {
        match self {
            WebSocketError::HandshakeError(m) => Fault::Handshake(m@),
            WebSocketError::IoError(code) => Fault::Io(*code),
            WebSocketError::NonGetRequest => Fault::NonGet,
            WebSocketError::ProtocolError(m) => Fault::Protocol(m@),
            WebSocketError::Utf8Error(_) => Fault::Utf8,
            WebSocketError::ResourceExhausted => Fault::Exhausted,
            WebSocketError::UnknownToken(t) => Fault::UnknownToken(*t),
        }
    }
}

impl WebSocketError {
    /// A `ProtocolError` that says `msg`.
    pub fn protocol(msg: &str) -> (e: WebSocketError)
        ensures
            e@ == Fault::Protocol(msg@),
    {
        WebSocketError::ProtocolError(msg.to_owned())
    }

    /// A `HandshakeError` that says `msg`.
    pub fn handshake(msg: &str) -> (e: WebSocketError)
        ensures
            e@ == Fault::Handshake(msg@),
    {
        WebSocketError::HandshakeError(msg.to_owned())
    }
}

} // verus!
