//! One connection's protocol state: handshake, frame dispatch, keepalive.
//! Time is a count of milliseconds that the caller supplies. A step that ends
//! in an error changes nothing: to take the connection down is the caller's.

use vstd::prelude::*;
use vstd::utf8::valid_utf8;
use crate::error::{WebSocketError, Fault};
use crate::frame::{
    Frame, FrameView, parse_frame, encode_text, ping_frame, pong_frame, frame_fault,
    decoded_frame, frame_len, text_frame, ping_frame_spec, pong_frame_spec,
};
use crate::handshake::{
    handshake_response, is_get_request, has_at, get_method, request_key, response_spec,
    missing_key_message, hash_failure_message,
};
use crate::sha1::MAX_MESSAGE_BYTES;
use crate::text::str_from_utf8;

verus! {

/// The keepalive interval that a connection has unless it is given another: ten seconds.
pub const DEFAULT_PING_TIMEOUT_MS: u64 = 10000;

/// Where a connection stands in the protocol. `Closed` is final.
#[derive(Clone, Copy, Debug, PartialEq, Eq, Structural)]
pub enum WebSocketState {
    Handshake,
    Connected,
    Closed,
}

/// One client connection.
#[derive(Debug)]
pub struct Connection {
    fd: i32,
    state: WebSocketState,
    write_buffer: Vec<u8>,
    last_ping: u64,
    pong_pending: bool,
    ping_timeout: u64,
}

/// A connection as a mathematical value.
pub struct ConnectionView {
    /// The socket of the connection.
    pub fd: i32,
    /// Where the connection stands in the protocol.
    pub state: WebSocketState,
    /// The bytes that wait to be sent, in order.
    pub outbound: Seq<u8>,
    /// The time of the last Ping.
    pub last_ping: u64,
    /// Whether a Ping was sent to which no Pong has come.
    pub pong_pending: bool,
    /// The keepalive interval.
    pub ping_timeout: u64,
}

impl View for Connection {
    type V = ConnectionView;

    closed spec fn view(&self) -> ConnectionView {
        ConnectionView {
            fd: self.fd,
            state: self.state,
            outbound: self.write_buffer@,
            last_ping: self.last_ping,
            pong_pending: self.pong_pending,
            ping_timeout: self.ping_timeout,
        }
    }
}

/// The message of the error for a lapsed keepalive.
pub open spec fn timeout_message() -> Seq<char> {
    "Pong not received"@
}

/// The connection `c`, closed.
pub open spec fn closed(c: ConnectionView) -> ConnectionView {
    ConnectionView { state: WebSocketState::Closed, ..c }
}

/// The connection `c` with `bytes` added to what waits to be sent.
pub open spec fn queued(c: ConnectionView, bytes: Seq<u8>) -> ConnectionView {
    ConnectionView { outbound: c.outbound + bytes, ..c }
}

/// What the upgrade request `data`, read at time `now`, makes of a connection
/// that awaits its handshake, and the error it ends with, if any. A request
/// that is accepted connects the connection and queues the response and a
/// first Ping. A request that is refused changes nothing.
pub open spec fn handshake_step(c: ConnectionView, data: Seq<u8>, now: u64) -> (
    ConnectionView,
    Option<Fault>,
) {
    if !valid_utf8(data) {
        (c, Some(Fault::Utf8))
    } else if !has_at(data, 0, get_method()) {
        (c, Some(Fault::NonGet))
    } else {
        match request_key(data) {
            None => (c, Some(Fault::Handshake(missing_key_message()))),
            Some(key) => if key.len() + 36 < MAX_MESSAGE_BYTES {
                (
                    ConnectionView {
                        state: WebSocketState::Connected,
                        outbound: c.outbound + response_spec(key) + ping_frame_spec(),
                        last_ping: now,
                        pong_pending: true,
                        ..c
                    },
                    None,
                )
            } else {
                (c, Some(Fault::Handshake(hash_failure_message())))
            },
        }
    }
}

/// What one frame makes of a connection, and the error it ends with, if any:
/// Text is echoed, Ping answered with a Pong, Pong noted, Close closes; Binary
/// changes nothing. Text that is no UTF-8 is an error and changes nothing.
pub open spec fn frame_step(c: ConnectionView, frame: FrameView) -> (
    ConnectionView,
    Option<Fault>,
) {
    match frame {
        FrameView::Text(payload) => if valid_utf8(payload) {
            (queued(c, text_frame(payload)), None)
        } else {
            (c, Some(Fault::Utf8))
        },
        FrameView::Binary(_) => (c, None),
        FrameView::Ping => (queued(c, pong_frame_spec()), None),
        FrameView::Pong => (ConnectionView { pong_pending: false, ..c }, None),
        FrameView::Close => (closed(c), None),
    }
}

/// What the bytes `data` make of a connection, frame by frame, and the error
/// they end with, if any. Decoding stops when the bytes are used up, when the
/// connection is no longer connected, or at the first error. An error leaves
/// the connection as the frames before it made it.
pub open spec fn frames_step(c: ConnectionView, data: Seq<u8>) -> (ConnectionView, Option<Fault>)
    decreases data.len(),
{
    if c.state != WebSocketState::Connected || data.len() == 0 {
        (c, None)
    } else {
        match frame_fault(data) {
            Some(msg) => (c, Some(Fault::Protocol(msg))),
            None => {
                let (next, fault) = frame_step(c, decoded_frame(data));
                if fault is Some {
                    (next, fault)
                } else {
                    frames_step(next, data.skip(frame_len(data)))
                }
            },
        }
    }
}

/// What the bytes `data`, read at time `now`, make of a connection: the
/// handshake while it is awaited, frames once connected, nothing once closed.
pub open spec fn read_step(c: ConnectionView, data: Seq<u8>, now: u64) -> (
    ConnectionView,
    Option<Fault>,
) {
    match c.state {
        WebSocketState::Handshake => handshake_step(c, data, now),
        WebSocketState::Connected => frames_step(c, data),
        WebSocketState::Closed => (c, None),
    }
}

/// Whether the keepalive interval of `c` has run out at time `now`.
pub open spec fn ping_due(c: ConnectionView, now: u64) -> bool {
    c.state == WebSocketState::Connected && now - c.last_ping > c.ping_timeout
}

/// What the keepalive check at time `now` makes of a connection, and the
/// error it ends with, if any. Once the interval has run out, a connection
/// that still owes a Pong is reported as lapsed and left as it is, and any
/// other is sent a new Ping.
pub open spec fn keepalive_step(c: ConnectionView, now: u64) -> (ConnectionView, Option<Fault>) {
    if !ping_due(c, now) {
        (c, None)
    } else if c.pong_pending {
        (c, Some(Fault::Handshake(timeout_message())))
    } else {
        (
            ConnectionView {
                outbound: c.outbound + ping_frame_spec(),
                last_ping: now,
                pong_pending: true,
                ..c
            },
            None,
        )
    }
}

/// Whether the result `r` reports the outcome `fault`.
pub open spec fn reports(r: Result<(), WebSocketError>, fault: Option<Fault>) -> bool {
    match fault {
        None => r is Ok,
        Some(f) => r is Err && r->Err_0@ == f,
    }
}

impl Connection {
    /// A connection on socket `fd`, accepted at time `now`, that awaits its
    /// handshake and has the default keepalive interval.
    pub fn new(fd: i32, now: u64) -> (c: Connection)
        ensures
            c@ == (ConnectionView {
                fd,
                state: WebSocketState::Handshake,
                outbound: Seq::empty(),
                last_ping: now,
                pong_pending: false,
                ping_timeout: DEFAULT_PING_TIMEOUT_MS,
            }),
    {
        Connection {
            fd,
            state: WebSocketState::Handshake,
            write_buffer: Vec::new(),
            last_ping: now,
            pong_pending: false,
            ping_timeout: DEFAULT_PING_TIMEOUT_MS,
        }
    }

    /// Sets the keepalive interval, in milliseconds.
    pub fn set_ping_timeout(&mut self, timeout: u64)
        ensures
            final(self)@ == (ConnectionView { ping_timeout: timeout, ..old(self)@ }),
    {
        self.ping_timeout = timeout;
    }

    /// The socket of the connection.
    pub fn fd(&self) -> (fd: i32)
        ensures
            fd == self@.fd,
    {
        self.fd
    }

    /// Where the connection stands in the protocol.
    pub fn state(&self) -> (s: WebSocketState)
        ensures
            s == self@.state,
    {
        self.state
    }

    /// Whether the connection is closed.
    pub fn is_closed(&self) -> (b: bool)
        ensures
            b == (self@.state == WebSocketState::Closed),
    {
        self.state == WebSocketState::Closed
    }

    /// Whether a Ping was sent to which no Pong has come.
    pub fn pong_pending(&self) -> (b: bool)
        ensures
            b == self@.pong_pending,
    {
        self.pong_pending
    }

    /// The time of the last Ping.
    pub fn last_ping(&self) -> (t: u64)
        ensures
            t == self@.last_ping,
    {
        self.last_ping
    }

    /// The bytes that wait to be sent.
    pub fn outbound(&self) -> (bytes: &[u8])
        ensures
            bytes@ == self@.outbound,
    {
        self.write_buffer.as_slice()
    }

    /// Whether any bytes wait to be sent.
    pub fn has_outbound(&self) -> (b: bool)
        ensures
            b == (self@.outbound.len() > 0),
    {
        self.write_buffer.len() > 0
    }

    /// Takes the first bytes that wait to be sent, `max` of them at most, out
    /// of the queue.
    pub fn take_outbound(&mut self, max: usize) -> (bytes: Vec<u8>)
        ensures
            bytes@.len() == if max <= old(self)@.outbound.len() {
                max as int
            } else {
                old(self)@.outbound.len() as int
            },
            bytes@ == old(self)@.outbound.take(bytes@.len() as int),
            final(self)@ == (ConnectionView {
                outbound: old(self)@.outbound.skip(bytes@.len() as int),
                ..old(self)@
            }),
    {
        let n: usize = if max <= self.write_buffer.len() {
            max
        } else {
            self.write_buffer.len()
        };
        let mut part = self.write_buffer.split_off(n);
        core::mem::swap(&mut self.write_buffer, &mut part);
        part
    }

    /// Puts `bytes` back in front of what waits to be sent.
    pub fn requeue(&mut self, bytes: &[u8])
        ensures
            final(self)@ == (ConnectionView {
                outbound: bytes@ + old(self)@.outbound,
                ..old(self)@
            }),
    {
        let mut queue: Vec<u8> = Vec::new();
        queue.extend_from_slice(bytes);
        queue.extend_from_slice(self.write_buffer.as_slice());
        assert(queue@ =~= bytes@ + self.write_buffer@);
        self.write_buffer = queue;
    }

    /// Closes the connection. What waits to be sent stays queued.
    pub fn close(&mut self)
        ensures
            final(self)@ == closed(old(self)@),
    {
        self.state = WebSocketState::Closed;
    }

    /// Queues a Ping frame.
    pub fn send_ping(&mut self)
        ensures
            final(self)@ == queued(old(self)@, ping_frame_spec()),
    {
        let frame = ping_frame();
        self.write_buffer.extend_from_slice(frame.as_slice());
        assert(self.write_buffer@ =~= old(self).write_buffer@ + ping_frame_spec());
    }

    /// Queues a Pong frame.
    pub fn send_pong(&mut self)
        ensures
            final(self)@ == queued(old(self)@, pong_frame_spec()),
    {
        let frame = pong_frame();
        self.write_buffer.extend_from_slice(frame.as_slice());
        assert(self.write_buffer@ =~= old(self).write_buffer@ + pong_frame_spec());
    }

    /// Queues `data` as one Text frame. Text of more than 65535 bytes is
    /// refused and nothing is queued.
    pub fn send_text(&mut self, data: &[u8]) -> (r: Result<(), WebSocketError>)
        ensures
            data@.len() <= 65535 ==> r is Ok && final(self)@ == queued(
                old(self)@,
                text_frame(data@),
            ),
            data@.len() > 65535 ==> r is Err && r->Err_0@ == Fault::Protocol("too large"@)
                && final(self)@ == old(self)@,
    {
        match encode_text(data) {
            Ok(frame) => {
                self.write_buffer.extend_from_slice(frame.as_slice());
                assert(self.write_buffer@ =~= old(self).write_buffer@ + text_frame(data@));
                Ok(())
            },
            Err(e) => Err(e),
        }
    }

    /// Handles the upgrade request `request`, read at time `now`.
    pub fn handle_handshake_state(&mut self, request: &[u8], now: u64) -> (r: Result<
        (),
        WebSocketError,
    >)
        ensures
            final(self)@ == handshake_step(old(self)@, request@, now).0,
            reports(r, handshake_step(old(self)@, request@, now).1),
    {
        match str_from_utf8(request) {
            Ok(_) => {},
            Err(e) => {
                return Err(WebSocketError::Utf8Error(e));
            },
        }
        if !is_get_request(request) {
            return Err(WebSocketError::NonGetRequest);
        }
        match handshake_response(request) {
            Ok(response) => {
                self.write_buffer.extend_from_slice(response.as_slice());
                self.state = WebSocketState::Connected;
                self.send_ping();
                self.last_ping = now;
                self.pong_pending = true;
                assert(self.write_buffer@ =~= old(self).write_buffer@ + response@
                    + ping_frame_spec());
                Ok(())
            },
            Err(e) => Err(e),
        }
    }

    /// Decodes the one frame at the start of `buffer` and acts on it. It gives
    /// the number of bytes that the frame took. A frame that is refused
    /// changes nothing.
    pub fn process_frame(&mut self, buffer: &[u8]) -> (r: Result<usize, WebSocketError>)
        ensures
            match frame_fault(buffer@) {
                Some(msg) => {
                    &&& final(self)@ == old(self)@
                    &&& r is Err && r->Err_0@ == Fault::Protocol(msg)
                },
                None => {
                    let (next, fault) = frame_step(old(self)@, decoded_frame(buffer@));
                    &&& final(self)@ == next
                    &&& match fault {
                        None => r == Ok::<usize, WebSocketError>(frame_len(buffer@) as usize),
                        Some(f) => r is Err && r->Err_0@ == f,
                    }
                },
            },
    {
        let (frame, used) = match parse_frame(buffer) {
            Ok(parsed) => parsed,
            Err(e) => {
                return Err(e);
            },
        };
        match frame {
            Frame::Pong => {
                self.pong_pending = false;
            },
            Frame::Ping => {
                self.send_pong();
            },
            Frame::Close => {
                self.state = WebSocketState::Closed;
            },
            Frame::Text(data) => {
                match str_from_utf8(data.as_slice()) {
                    Ok(_) => {},
                    Err(e) => {
                        return Err(WebSocketError::Utf8Error(e));
                    },
                }
                match self.send_text(data.as_slice()) {
                    Ok(()) => {},
                    Err(e) => {
                        return Err(e);
                    },
                }
            },
            Frame::Binary(_) => {},
        }
        Ok(used)
    }

    /// Handles the frames in `data`, one after the other, while the
    /// connection is connected.
    pub fn handle_read_buffer(&mut self, data: &[u8]) -> (r: Result<(), WebSocketError>)
        ensures
            final(self)@ == frames_step(old(self)@, data@).0,
            reports(r, frames_step(old(self)@, data@).1),
    {
        let mut offset: usize = 0;
        assert(data@.skip(0) =~= data@);
        while offset < data.len() && self.state == WebSocketState::Connected
            invariant
                offset <= data.len(),
                frames_step(old(self)@, data@) == frames_step(self@, data@.skip(offset as int)),
            decreases data.len() - offset,
        {
            let rest = vstd::slice::slice_subrange(data, offset, data.len());
            assert(rest@ =~= data@.skip(offset as int));
            match self.process_frame(rest) {
                Ok(used) => {
                    assert(rest@.skip(used as int) =~= data@.skip(offset + used));
                    offset += used;
                },
                Err(e) => {
                    return Err(e);
                },
            }
        }
        assert(data@.skip(offset as int).len() == data@.len() - offset);
        Ok(())
    }

    /// Handles the bytes `data` that were read from the socket at time `now`:
    /// the handshake while it is awaited, frames once connected, nothing once
    /// closed.
    pub fn on_read(&mut self, data: &[u8], now: u64) -> (r: Result<(), WebSocketError>)
        ensures
            final(self)@ == read_step(old(self)@, data@, now).0,
            reports(r, read_step(old(self)@, data@, now).1),
    {
        match self.state {
            WebSocketState::Handshake => self.handle_handshake_state(data, now),
            WebSocketState::Connected => self.handle_read_buffer(data),
            WebSocketState::Closed => Ok(()),
        }
    }

    /// The keepalive check, made at time `now`. A lapse is reported as an
    /// error and changes nothing: to take the connection down is the caller's.
    pub fn check_ping_timeout(&mut self, now: u64) -> (r: Result<(), WebSocketError>)
        ensures
            final(self)@ == keepalive_step(old(self)@, now).0,
            reports(r, keepalive_step(old(self)@, now).1),
    {
        if self.state == WebSocketState::Connected && now > self.last_ping && now - self.last_ping
            > self.ping_timeout {
            if self.pong_pending {
                return Err(WebSocketError::handshake("Pong not received"));
            }
            self.send_ping();
            self.pong_pending = true;
            self.last_ping = now;
        }
        Ok(())
    }
}

/// Nothing leaves the closed state: neither bytes read nor the keepalive
/// check change a closed connection, and neither reports an error.
pub proof fn lemma_closed_is_final(c: ConnectionView, data: Seq<u8>, now: u64)
    requires
        c.state == WebSocketState::Closed,
    ensures
        read_step(c, data, now) == (c, None::<Fault>),
        keepalive_step(c, now) == (c, None::<Fault>),
{
}

/// A frame that is refused changes nothing: state, queue, Pong debt and the
/// time of the last Ping are as they were.
pub proof fn lemma_refused_frame_changes_nothing(c: ConnectionView, data: Seq<u8>)
    requires
        c.state == WebSocketState::Connected,
        data.len() > 0,
        frame_fault(data) is Some,
    ensures
        frames_step(c, data) == (c, Some(Fault::Protocol(frame_fault(data)->0))),
{
}

/// Only a Close frame closes: where one frame takes a connection that was
/// not closed to the closed state, the frame is Close and no error is
/// reported. A frame that ends in an error changes nothing.
pub proof fn lemma_only_close_closes(c: ConnectionView, frame: FrameView)
    ensures
        frame_step(c, frame).0.state == c.state || (frame is Close && frame_step(c, frame).0.state
            == WebSocketState::Closed && frame_step(c, frame).1 is None),
        frame_step(c, frame).1 is Some ==> frame_step(c, frame).0 == c,
{
}

/// A request that is refused changes nothing, and one that is accepted
/// connects.
pub proof fn lemma_handshake_outcomes(c: ConnectionView, data: Seq<u8>, now: u64)
    ensures
        handshake_step(c, data, now).1 is Some ==> handshake_step(c, data, now).0 == c,
        handshake_step(c, data, now).1 is None ==> handshake_step(c, data, now).0.state
            == WebSocketState::Connected,
{
}

/// A connected peer that owes a Pong when the keepalive interval has run out
/// is reported as lapsed: the check returns the error, queues no Ping and
/// leaves the connection as it is.
pub proof fn lemma_silent_peer_times_out(c: ConnectionView, now: u64)
    requires
        c.state == WebSocketState::Connected,
        c.pong_pending,
        now - c.last_ping > c.ping_timeout,
    ensures
        keepalive_step(c, now) == (c, Some(Fault::Handshake(timeout_message()))),
{
}

/// A Ping that no Pong follows is reported at the first check past the
/// interval, whatever else the peer sends in between: frames other than Pong
/// leave the debt standing.
pub proof fn lemma_only_pong_clears_debt(c: ConnectionView, frame: FrameView)
    requires
        c.pong_pending,
        !(frame is Pong),
    ensures
        frame_step(c, frame).0.pong_pending,
        frame_step(c, frame).0.last_ping == c.last_ping,
{
}

/// A step never reopens a connection: the states only move from handshake to
/// connected to closed.
pub proof fn lemma_state_order(c: ConnectionView, data: Seq<u8>, now: u64)
    ensures
        c.state != WebSocketState::Handshake ==> read_step(c, data, now).0.state
            != WebSocketState::Handshake,
        keepalive_step(c, now).0.state == c.state,
{
    lemma_frames_keep_order(c, data);
}

/// Frames leave a connection connected or closed.
pub proof fn lemma_frames_keep_order(c: ConnectionView, data: Seq<u8>)
    ensures
        c.state != WebSocketState::Handshake ==> frames_step(c, data).0.state
            != WebSocketState::Handshake,
    decreases data.len(),
{
    if c.state == WebSocketState::Connected && data.len() > 0 && frame_fault(data) is None {
        let (next, fault) = frame_step(c, decoded_frame(data));
        if fault is None {
            lemma_frames_keep_order(next, data.skip(frame_len(data)));
        }
    }
}

} // verus!
