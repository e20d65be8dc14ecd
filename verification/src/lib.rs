//! A WebSocket server core for a completion-queue reactor, as plain values.
//!
//! - `frame`, `handshake`, `connection`: the wire protocol, from the upgrade
//!   request to frames and keepalive.
//! - `sha1`, `base64`, `text`: the digest and the codec that the handshake
//!   needs, and the standard library's UTF-8 validation.
//! - `registry`, `arena`, `books`, `entry`, `reactor`: which operations are
//!   in flight, who owns which buffer, and what to submit next.
//! - `echo`: a plain echo server on the same ring, its decisions and its
//!   bookkeeping.
//! - `error`: the error type that they share.

pub mod error;
pub mod text;
pub mod frame;
pub mod sha1;
pub mod base64;
pub mod handshake;
pub mod connection;
pub mod arena;
pub mod registry;
pub mod books;
pub mod entry;
pub mod reactor;
pub mod echo;
