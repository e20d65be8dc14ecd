//! WebSocket frames: masking, decoding of client frames, encoding of server frames.

use vstd::prelude::*;
use crate::error::{WebSocketError, Fault};

verus! {

/// One decoded protocol unit.
#[derive(Debug)]
pub enum Frame {
    Text(Vec<u8>),
    Binary(Vec<u8>),
    Ping,
    Pong,
    Close,
}

/// A frame as a mathematical value.
pub enum FrameView {
    Text(Seq<u8>),
    Binary(Seq<u8>),
    Ping,
    Pong,
    Close,
}

impl View for Frame {
    type V = FrameView;

    open spec fn view(&self) -> FrameView {
        match self {
            Frame::Text(d) => FrameView::Text(d@),
            Frame::Binary(d) => FrameView::Binary(d@),
            Frame::Ping => FrameView::Ping,
            Frame::Pong => FrameView::Pong,
            Frame::Close => FrameView::Close,
        }
    }
}

/// The opcode of a Text frame.
pub const OPCODE_TEXT: u8 = 0x1;

/// The opcode of a Binary frame.
pub const OPCODE_BINARY: u8 = 0x2;

/// The opcode of a Close frame.
pub const OPCODE_CLOSE: u8 = 0x8;

/// The opcode of a Ping frame.
pub const OPCODE_PING: u8 = 0x9;

/// The opcode of a Pong frame.
pub const OPCODE_PONG: u8 = 0xA;

/// The largest payload that a frame of this server carries.
pub const MAX_PAYLOAD: usize = 65535;

/// The payload `data` with byte `i` XOR-ed with `key[i % 4]`.
pub open spec fn mask_spec(data: Seq<u8>, key: Seq<u8>) -> Seq<u8>
    recommends
        key.len() == 4,
{
    Seq::new(data.len(), |i: int| data[i] ^ key[i % 4])
}

/// The opcode of a frame: the low four bits of its first byte.
pub open spec fn opcode_of(buf: Seq<u8>) -> u8
    recommends
        buf.len() >= 1,
{
    buf[0] & 0x0F
}

/// Whether the opcode is one of the five that this server knows.
pub open spec fn known_opcode(op: u8) -> bool {
    op == OPCODE_TEXT || op == OPCODE_BINARY || op == OPCODE_CLOSE || op == OPCODE_PING || op
        == OPCODE_PONG
}

/// Whether the mask bit of a frame is set: the high bit of its second byte.
pub open spec fn mask_bit(buf: Seq<u8>) -> bool
    recommends
        buf.len() >= 2,
{
    buf[1] & 0x80 != 0
}

/// The length class of a frame: the low seven bits of its second byte.
pub open spec fn length_class(buf: Seq<u8>) -> u8
    recommends
        buf.len() >= 2,
{
    buf[1] & 0x7F
}

/// Where the mask key starts: after the two header bytes and, for class 126,
/// the two bytes of extended length.
pub open spec fn key_offset(buf: Seq<u8>) -> int
    recommends
        buf.len() >= 2,
{
    if length_class(buf) == 126 {
        4
    } else {
        2
    }
}

/// The payload length that the header announces (classes 0 to 126 only).
pub open spec fn payload_len(buf: Seq<u8>) -> int
    recommends
        buf.len() >= 2,
        length_class(buf) == 126 ==> buf.len() >= 4,
{
    if length_class(buf) == 126 {
        buf[2] as int * 256 + buf[3] as int
    } else {
        length_class(buf) as int
    }
}

/// The number of bytes that the frame at the start of `buf` occupies.
pub open spec fn frame_len(buf: Seq<u8>) -> int
    recommends
        buf.len() >= 2,
{
    key_offset(buf) + 4 + payload_len(buf)
}

/// Why the bytes at the start of `buf` are no frame that this server accepts,
/// as the reason given in the error, or `None` where they are one.
/// The tests are made in this order; the first that fails gives the reason.
pub open spec fn frame_fault(buf: Seq<u8>) -> Option<Seq<char>> {
    if buf.len() < 2 {
        Some("too short"@)
    } else if !known_opcode(opcode_of(buf)) {
        Some("unknown opcode"@)
    } else if !mask_bit(buf) {
        Some("must be masked"@)
    } else if length_class(buf) == 127 {
        Some("too large"@)
    } else if length_class(buf) == 126 && buf.len() < 4 {
        Some("short buffer"@)
    } else if buf.len() < frame_len(buf) {
        Some("short buffer"@)
    } else {
        None
    }
}

/// The mask key of the frame at the start of `buf`.
pub open spec fn frame_key(buf: Seq<u8>) -> Seq<u8> {
    buf.subrange(key_offset(buf), key_offset(buf) + 4)
}

/// The unmasked payload of the frame at the start of `buf`.
pub open spec fn frame_payload(buf: Seq<u8>) -> Seq<u8> {
    mask_spec(buf.subrange(key_offset(buf) + 4, frame_len(buf)), frame_key(buf))
}

/// The frame at the start of `buf`, where `frame_fault(buf)` is `None`.
/// Control frames carry no data: what payload they have is dropped.
pub open spec fn decoded_frame(buf: Seq<u8>) -> FrameView {
    let op = opcode_of(buf);
    if op == OPCODE_TEXT {
        FrameView::Text(frame_payload(buf))
    } else if op == OPCODE_BINARY {
        FrameView::Binary(frame_payload(buf))
    } else if op == OPCODE_CLOSE {
        FrameView::Close
    } else if op == OPCODE_PING {
        FrameView::Ping
    } else {
        FrameView::Pong
    }
}

/// Applies the 4-byte masking key to `data`. Masking and unmasking are the same operation.
pub fn mask(data: &[u8], key: &[u8; 4]) -> (out: Vec<u8>)
    ensures
        out@ == mask_spec(data@, key@),
{
    let mut out: Vec<u8> = Vec::with_capacity(data.len());
    let mut i: usize = 0;
    while i < data.len()
        invariant
            i <= data.len(),
            out@.len() == i,
            forall|j: int| 0 <= j < i ==> out@[j] == data@[j] ^ key@[j % 4],
        decreases data.len() - i,
    {
        out.push(data[i] ^ key[i % 4]);
        i += 1;
    }
    out
}

/// Removes the mask that `mask` applied: the same XOR with the same key.
pub fn unmask(data: &[u8], key: &[u8; 4]) -> (out: Vec<u8>)
    ensures
        out@ == mask_spec(data@, key@),
{
    mask(data, key)
}

/// Masking twice with one key gives the payload back.
pub proof fn lemma_mask_involution(data: Seq<u8>, key: Seq<u8>)
    requires
        key.len() == 4,
    ensures
        mask_spec(mask_spec(data, key), key) == data,
{
    assert forall|i: int| 0 <= i < data.len() implies #[trigger] mask_spec(
        mask_spec(data, key),
        key,
    )[i] == data[i] by {
        let d = data[i];
        let k = key[i % 4];
        assert((d ^ k) ^ k == d) by (bit_vector);
    }
    assert(mask_spec(mask_spec(data, key), key) =~= data);
}

/// Decodes the client frame at the start of `buffer`: the frame and the number
/// of bytes it occupied, or a `ProtocolError` with the reason.
pub fn parse_frame(buffer: &[u8]) -> (r: Result<(Frame, usize), WebSocketError>)
    ensures
        match r {
            Ok((frame, used)) => {
                &&& frame_fault(buffer@) is None
                &&& frame@ == decoded_frame(buffer@)
                &&& used == frame_len(buffer@)
            },
            Err(e) => {
                &&& frame_fault(buffer@) matches Some(msg)
                &&& e@ == Fault::Protocol(msg)
            },
        },
{
    if buffer.len() < 2 {
        return Err(WebSocketError::protocol("too short"));
    }
    let opcode: u8 = buffer[0] & 0x0F;
    if !(opcode == OPCODE_TEXT || opcode == OPCODE_BINARY || opcode == OPCODE_CLOSE || opcode
        == OPCODE_PING || opcode == OPCODE_PONG) {
        return Err(WebSocketError::protocol("unknown opcode"));
    }
    let second: u8 = buffer[1];
    if second & 0x80 == 0 {
        return Err(WebSocketError::protocol("must be masked"));
    }
    let class: u8 = second & 0x7F;
    assert(class <= 127) by (bit_vector)
        requires
            class == second & 0x7F,
    ;
    let mut offset: usize = 2;
    let mut length: usize = class as usize;
    if class == 127 {
        return Err(WebSocketError::protocol("too large"));
    } else if class == 126 {
        if buffer.len() < 4 {
            return Err(WebSocketError::protocol("short buffer"));
        }
        length = (buffer[2] as usize) * 256 + (buffer[3] as usize);
        offset = 4;
    }
    if buffer.len() < offset + 4 + length {
        return Err(WebSocketError::protocol("short buffer"));
    }
    let start: usize = offset + 4;
    let mut data: Vec<u8> = Vec::with_capacity(length);
    let mut i: usize = 0;
    while i < length
        invariant
            i <= length,
            offset + 4 == start,
            start + length <= buffer.len(),
            data@.len() == i,
            forall|j: int|
                0 <= j < i ==> data@[j] == buffer@[start + j] ^ buffer@[offset + j % 4],
        decreases length - i,
    {
        data.push(buffer[start + i] ^ buffer[offset + i % 4]);
        i += 1;
    }
    proof {
        assert(data@ =~= frame_payload(buffer@));
    }
    let frame = if opcode == OPCODE_TEXT {
        Frame::Text(data)
    } else if opcode == OPCODE_BINARY {
        Frame::Binary(data)
    } else if opcode == OPCODE_CLOSE {
        Frame::Close
    } else if opcode == OPCODE_PING {
        Frame::Ping
    } else {
        Frame::Pong
    };
    Ok((frame, start + length))
}

/// The header of a server frame: the FIN bit with the opcode, then the length in
/// one byte up to 125 and as 126 with two big-endian bytes above that.
pub open spec fn server_header(opcode: u8, len: int) -> Seq<u8>
    recommends
        0 <= len <= 65535,
{
    if len <= 125 {
        seq![0x80u8 | opcode, len as u8]
    } else {
        seq![0x80u8 | opcode, 126u8, (len / 256) as u8, (len % 256) as u8]
    }
}

/// The unmasked Text frame that carries `payload`.
pub open spec fn text_frame(payload: Seq<u8>) -> Seq<u8>
    recommends
        payload.len() <= 65535,
{
    server_header(0x1, payload.len() as int) + payload
}

/// The Ping frame of this server: two bytes, no payload.
pub open spec fn ping_frame_spec() -> Seq<u8> {
    seq![0x89u8, 0x00u8]
}

/// The Pong frame of this server: two bytes, no payload.
pub open spec fn pong_frame_spec() -> Seq<u8> {
    seq![0x8Au8, 0x00u8]
}

/// Encodes `payload` as one unmasked Text frame. A payload of more than
/// 65535 bytes is refused with `ProtocolError("too large")`.
pub fn encode_text(payload: &[u8]) -> (r: Result<Vec<u8>, WebSocketError>)
    ensures
        payload@.len() <= 65535 ==> r is Ok && r->Ok_0@ == text_frame(payload@),
        payload@.len() > 65535 ==> r is Err && r->Err_0@ == Fault::Protocol("too large"@),
{
    let length: usize = payload.len();
    if length > MAX_PAYLOAD {
        return Err(WebSocketError::protocol("too large"));
    }
    let mut frame: Vec<u8> = Vec::new();
    frame.push(0x81);
    assert(0x80u8 | 0x1u8 == 0x81u8) by (bit_vector);
    if length <= 125 {
        frame.push(length as u8);
    } else {
        frame.push(126);
        frame.push((length / 256) as u8);
        frame.push((length % 256) as u8);
    }
    assert(frame@ =~= server_header(0x1, length as int));
    frame.extend_from_slice(payload);
    Ok(frame)
}

/// The Ping control frame.
pub fn ping_frame() -> (frame: [u8; 2])
    ensures
        frame@ == ping_frame_spec(),
{
    let frame: [u8; 2] = [0x89, 0x00];
    assert(frame@ =~= ping_frame_spec());
    frame
}

/// The Pong control frame.
pub fn pong_frame() -> (frame: [u8; 2])
    ensures
        frame@ == pong_frame_spec(),
{
    let frame: [u8; 2] = [0x8A, 0x00];
    assert(frame@ =~= pong_frame_spec());
    frame
}

/// What a client sends for the server frame `frame`: the same header with the
/// mask bit set, then `key`, then the payload masked with `key`.
pub open spec fn client_copy(frame: Seq<u8>, key: Seq<u8>) -> Seq<u8>
    recommends
        frame.len() >= 2,
        key.len() == 4,
{
    let head = if frame[1] == 126 {
        4int
    } else {
        2int
    };
    frame.subrange(0, head).update(1, frame[1] | 0x80) + key + mask_spec(
        frame.subrange(head, frame.len() as int),
        key,
    )
}

/// A Text frame built by the server, sent back masked under any key, decodes to
/// the payload it was built from, and the decoder takes all of its bytes.
pub proof fn lemma_text_round_trip(payload: Seq<u8>, key: Seq<u8>)
    requires
        payload.len() <= 65535,
        key.len() == 4,
    ensures
        frame_fault(client_copy(text_frame(payload), key)) is None,
        decoded_frame(client_copy(text_frame(payload), key)) == FrameView::Text(payload),
        frame_len(client_copy(text_frame(payload), key)) == client_copy(
            text_frame(payload),
            key,
        ).len(),
{
    let n = payload.len() as int;
    let f = text_frame(payload);
    let c = client_copy(f, key);
    assert(0x80u8 | 0x1u8 == 0x81u8) by (bit_vector);
    assert(0x81u8 & 0x0Fu8 == 0x1u8) by (bit_vector);
    assert(f[0] == 0x81u8);
    let l1 = f[1];
    assert((l1 | 0x80) & 0x80 != 0) by (bit_vector);
    assert((l1 | 0x80) & 0x7F == l1) by (bit_vector)
        requires
            l1 <= 126,
    ;
    if n <= 125 {
        assert(f[1] == n as u8);
        assert(f.subrange(2, f.len() as int) =~= payload);
    } else {
        assert(f[1] == 126u8);
        assert(f[2] == (n / 256) as u8);
        assert(f[3] == (n % 256) as u8);
        assert(f.subrange(4, f.len() as int) =~= payload);
        assert(c[2] as int * 256 + c[3] as int == n);
    }
    assert(c[0] == 0x81u8);
    assert(c[1] == l1 | 0x80);
    assert(frame_key(c) =~= key);
    assert(c.subrange(key_offset(c) + 4, frame_len(c)) =~= mask_spec(payload, key));
    lemma_mask_involution(payload, key);
}

/// A frame whose mask bit is clear is never accepted.
pub proof fn lemma_unmasked_rejected(buf: Seq<u8>)
    requires
        buf.len() >= 2,
        !mask_bit(buf),
    ensures
        frame_fault(buf) is Some,
{
}

/// A frame of length class 127 is never accepted, whatever follows its header:
/// with a known opcode and the mask bit set, the reason is "too large".
pub proof fn lemma_length_127_rejected(buf: Seq<u8>)
    requires
        buf.len() >= 2,
        length_class(buf) == 127,
    ensures
        frame_fault(buf) is Some,
        known_opcode(opcode_of(buf)) && mask_bit(buf) ==> frame_fault(buf) == Some(
            "too large"@,
        ),
{
}

} // verus!
