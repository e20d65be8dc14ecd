//! The HTTP upgrade handshake: finding the client's key in the request and
//! building the response that accepts it.

use vstd::prelude::*;
use vstd::utf8::{encode_utf8, valid_utf8, encode_utf8_valid_utf8, valid_utf8_concat};
use crate::error::{WebSocketError, Fault};
use crate::sha1::{Sha1, sha1_spec, MAX_MESSAGE_BYTES};
use crate::base64::{Base64, encode_spec};
use crate::text::{string_from_utf8, lemma_ascii_is_utf8};

verus! {

/// The header that carries the client's key, with the space behind its colon.
pub const KEY_HEADER: &'static str = "Sec-WebSocket-Key: ";

/// The identifier that the protocol appends to the key before hashing.
pub const GUID: &'static str = "258EAFA5-E914-47DA-95CA-C5AB0DC85B11";

/// The response up to the accept value.
pub const RESPONSE_HEAD: &'static str =
    "HTTP/1.1 101 Switching Protocols\r\nUpgrade: websocket\r\nConnection: Upgrade\r\nSec-WebSocket-Accept: ";

/// The response behind the accept value: the end of the line and the empty line.
pub const RESPONSE_TAIL: &'static str = "\r\n\r\n";

/// The bytes of the header that carries the client's key.
pub open spec fn key_header() -> Seq<u8> {
    encode_utf8(KEY_HEADER@)
}

/// The bytes of the protocol's identifier.
pub open spec fn guid() -> Seq<u8> {
    encode_utf8(GUID@)
}

/// The method that an upgrade request starts with.
pub open spec fn get_method() -> Seq<u8> {
    encode_utf8("GET"@)
}

/// The bytes of the response up to the accept value.
pub open spec fn response_head() -> Seq<u8> {
    encode_utf8(RESPONSE_HEAD@)
}

/// The bytes of the response behind the accept value.
pub open spec fn response_tail() -> Seq<u8> {
    encode_utf8(RESPONSE_TAIL@)
}

/// Whether `p` stands in `s` at index `at`.
pub open spec fn has_at(s: Seq<u8>, at: int, p: Seq<u8>) -> bool {
    0 <= at && at + p.len() <= s.len() && s.subrange(at, at + p.len()) == p
}

/// Whether a line starts at index `i` of `s`: at the start, or behind a line feed.
pub open spec fn is_line_start(s: Seq<u8>, i: int) -> bool {
    0 <= i < s.len() && (i == 0 || s[i - 1] == 10)
}

/// The index of the first line, at or behind `from`, that starts with the key
/// header, if there is one.
pub open spec fn first_key_line(s: Seq<u8>, from: int) -> Option<int>
    decreases s.len() - from,
{
    if from < 0 || from >= s.len() {
        None
    } else if is_line_start(s, from) && has_at(s, from, key_header()) {
        Some(from)
    } else {
        first_key_line(s, from + 1)
    }
}

/// The end of the line that holds index `i`: the index of the next line feed,
/// or the end of `s`.
pub open spec fn line_end(s: Seq<u8>, i: int) -> int
    decreases s.len() - i,
{
    if i < 0 || i >= s.len() || s[i] == 10 {
        i
    } else {
        line_end(s, i + 1)
    }
}

/// Whether the byte is white space of one byte: tab to carriage return, or space.
pub open spec fn is_space1(a: u8) -> bool {
    9 <= a <= 13 || a == 32
}

/// Whether the two bytes encode white space: U+0085 or U+00A0.
pub open spec fn is_space2(a: u8, b: u8) -> bool {
    a == 0xC2 && (b == 0x85 || b == 0xA0)
}

/// Whether the three bytes encode white space: U+1680, U+2000 to U+200A,
/// U+2028, U+2029, U+202F, U+205F or U+3000.
pub open spec fn is_space3(a: u8, b: u8, c: u8) -> bool {
    ||| a == 0xE1 && b == 0x9A && c == 0x80
    ||| a == 0xE2 && b == 0x80 && (0x80 <= c <= 0x8A || c == 0xA8 || c == 0xA9 || c == 0xAF)
    ||| a == 0xE2 && b == 0x81 && c == 0x9F
    ||| a == 0xE3 && b == 0x80 && c == 0x80
}

/// The length of the white-space character that starts at `lo` and ends at or
/// before `hi`, or 0 where none does.
pub open spec fn space_len_at(s: Seq<u8>, lo: int, hi: int) -> int {
    if lo + 1 <= hi && is_space1(s[lo]) {
        1
    } else if lo + 2 <= hi && is_space2(s[lo], s[lo + 1]) {
        2
    } else if lo + 3 <= hi && is_space3(s[lo], s[lo + 1], s[lo + 2]) {
        3
    } else {
        0
    }
}

/// The length of the white-space character that ends at `hi` and starts at or
/// behind `lo`, or 0 where none does.
pub open spec fn space_len_before(s: Seq<u8>, lo: int, hi: int) -> int {
    if lo + 1 <= hi && is_space1(s[hi - 1]) {
        1
    } else if lo + 2 <= hi && is_space2(s[hi - 2], s[hi - 1]) {
        2
    } else if lo + 3 <= hi && is_space3(s[hi - 3], s[hi - 2], s[hi - 1]) {
        3
    } else {
        0
    }
}

/// Where `s[lo..hi]` starts once leading white space is taken off.
pub open spec fn trim_lo(s: Seq<u8>, lo: int, hi: int) -> int
    decreases hi - lo,
{
    if space_len_at(s, lo, hi) == 0 {
        lo
    } else {
        trim_lo(s, lo + space_len_at(s, lo, hi), hi)
    }
}

/// Where `s[lo..hi]` ends once trailing white space is taken off.
pub open spec fn trim_hi(s: Seq<u8>, lo: int, hi: int) -> int
    decreases hi - lo,
{
    if space_len_before(s, lo, hi) == 0 {
        hi
    } else {
        trim_hi(s, lo, hi - space_len_before(s, lo, hi))
    }
}

/// `s[lo..hi]` without the white space at its two ends.
pub open spec fn trimmed(s: Seq<u8>, lo: int, hi: int) -> Seq<u8> {
    let start = trim_lo(s, lo, hi);
    s.subrange(start, trim_hi(s, start, hi))
}

/// The client's key in `request`: what follows the key header on the first
/// line that starts with it, up to the end of that line, without the white
/// space at its two ends. `None` where no line starts with the header.
pub open spec fn request_key(request: Seq<u8>) -> Option<Seq<u8>> {
    match first_key_line(request, 0) {
        Some(at) => Some(
            trimmed(request, at + key_header().len(), line_end(request, at + key_header().len())),
        ),
        None => None,
    }
}

/// The accept value for `key`: the Base64 text of the SHA-1 digest of the key
/// followed by the protocol's identifier.
pub open spec fn accept_spec(key: Seq<u8>) -> Seq<u8> {
    encode_spec(sha1_spec(key + guid()))
}

/// The response that accepts `key`.
pub open spec fn response_spec(key: Seq<u8>) -> Seq<u8> {
    response_head() + accept_spec(key) + response_tail()
}

/// The message of the error for a request without a key.
pub open spec fn missing_key_message() -> Seq<char> {
    "Could not find Sec-WebSocket-Key in HTTP request header"@
}

/// The message of the error for a key too long to hash.
pub open spec fn hash_failure_message() -> Seq<char> {
    "Failed to hash the response key"@
}

/// Whether `p` stands in `s` at index `at`.
pub fn starts_with_at(s: &[u8], at: usize, p: &[u8]) -> (r: bool)
    ensures
        r == has_at(s@, at as int, p@),
{
    if at > s.len() || p.len() > s.len() - at {
        return false;
    }
    let mut i: usize = 0;
    while i < p.len()
        invariant
            i <= p.len(),
            at + p.len() <= s.len(),
            forall|j: int| 0 <= j < i ==> s@[at + j] == p@[j],
        decreases p.len() - i,
    {
        if s[at + i] != p[i] {
            assert(s@.subrange(at as int, at + p.len())[i as int] != p@[i as int]);
            return false;
        }
        i += 1;
    }
    assert(s@.subrange(at as int, at + p.len()) =~= p@);
    true
}

/// Whether `request` starts with `GET`.
pub fn is_get_request(request: &[u8]) -> (r: bool)
    ensures
        r == has_at(request@, 0, get_method()),
{
    starts_with_at(request, 0, "GET".as_bytes())
}

fn find_key_line(request: &[u8]) -> (r: Option<usize>)
    ensures
        match r {
            Some(at) => first_key_line(request@, 0) == Some(at as int) && has_at(
                request@,
                at as int,
                key_header(),
            ),
            None => first_key_line(request@, 0) is None,
        },
{
    let header = KEY_HEADER.as_bytes();
    let mut i: usize = 0;
    while i < request.len()
        invariant
            i <= request.len(),
            header@ == key_header(),
            first_key_line(request@, 0) == first_key_line(request@, i as int),
        decreases request.len() - i,
    {
        if (i == 0 || request[i - 1] == 10) && starts_with_at(request, i, header) {
            return Some(i);
        }
        i += 1;
    }
    None
}

fn find_line_end(s: &[u8], from: usize) -> (r: usize)
    requires
        from <= s@.len(),
    ensures
        r == line_end(s@, from as int),
        from <= r <= s@.len(),
{
    let mut i: usize = from;
    while i < s.len() && s[i] != 10
        invariant
            from <= i <= s.len(),
            line_end(s@, from as int) == line_end(s@, i as int),
        decreases s.len() - i,
    {
        i += 1;
    }
    i
}

fn space_at(s: &[u8], lo: usize, hi: usize) -> (r: usize)
    requires
        lo <= hi <= s@.len(),
    ensures
        r == space_len_at(s@, lo as int, hi as int),
        r <= hi - lo,
{
    let n: usize = hi - lo;
    if n >= 1 && ((9 <= s[lo] && s[lo] <= 13) || s[lo] == 32) {
        1
    } else if n >= 2 && s[lo] == 0xC2 && (s[lo + 1] == 0x85 || s[lo + 1] == 0xA0) {
        2
    } else if n >= 3 && space3(s[lo], s[lo + 1], s[lo + 2]) {
        3
    } else {
        0
    }
}

fn space_before(s: &[u8], lo: usize, hi: usize) -> (r: usize)
    requires
        lo <= hi <= s@.len(),
    ensures
        r == space_len_before(s@, lo as int, hi as int),
        r <= hi - lo,
{
    let n: usize = hi - lo;
    if n >= 1 && ((9 <= s[hi - 1] && s[hi - 1] <= 13) || s[hi - 1] == 32) {
        1
    } else if n >= 2 && s[hi - 2] == 0xC2 && (s[hi - 1] == 0x85 || s[hi - 1] == 0xA0) {
        2
    } else if n >= 3 && space3(s[hi - 3], s[hi - 2], s[hi - 1]) {
        3
    } else {
        0
    }
}

fn space3(a: u8, b: u8, c: u8) -> (r: bool)
    ensures
        r == is_space3(a, b, c),
{
    (a == 0xE1 && b == 0x9A && c == 0x80) || (a == 0xE2 && b == 0x80 && ((0x80 <= c && c <= 0x8A)
        || c == 0xA8 || c == 0xA9 || c == 0xAF)) || (a == 0xE2 && b == 0x81 && c == 0x9F) || (a
        == 0xE3 && b == 0x80 && c == 0x80)
}

/// The bounds of `s[lo..hi]` without the white space at its two ends.
pub fn trim(s: &[u8], lo: usize, hi: usize) -> (r: (usize, usize))
    requires
        lo <= hi <= s@.len(),
    ensures
        r.0 == trim_lo(s@, lo as int, hi as int),
        r.1 == trim_hi(s@, r.0 as int, hi as int),
        lo <= r.0 <= r.1 <= hi,
        s@.subrange(r.0 as int, r.1 as int) == trimmed(s@, lo as int, hi as int),
{
    let mut start: usize = lo;
    loop
        invariant
            lo <= start <= hi <= s@.len(),
            trim_lo(s@, lo as int, hi as int) == trim_lo(s@, start as int, hi as int),
        ensures
            start == trim_lo(s@, lo as int, hi as int),
        decreases hi - start,
    {
        let n = space_at(s, start, hi);
        if n == 0 {
            break ;
        }
        start += n;
    }
    let mut end: usize = hi;
    loop
        invariant
            start <= end <= hi <= s@.len(),
            trim_hi(s@, start as int, hi as int) == trim_hi(s@, start as int, end as int),
        ensures
            end == trim_hi(s@, start as int, hi as int),
            start <= end <= hi,
        decreases end - start,
    {
        let n = space_before(s, start, end);
        if n == 0 {
            break ;
        }
        end -= n;
    }
    (start, end)
}

/// The accept value for `key`. It fails, with a `HandshakeError`, only for a
/// key too long to hash.
pub fn accept_key(key: &[u8]) -> (r: Result<Vec<u8>, WebSocketError>)
    ensures
        key@.len() + 36 < MAX_MESSAGE_BYTES ==> r is Ok && r->Ok_0@ == accept_spec(key@),
        key@.len() + 36 >= MAX_MESSAGE_BYTES ==> r is Err && r->Err_0@ == Fault::Handshake(hash_failure_message()),
        r is Ok ==> forall|i: int| 0 <= i < r->Ok_0@.len() ==> r->Ok_0@[i] < 128,
{
    let id = GUID.as_bytes();
    proof {
        lemma_guid_len();
    }
    let mut message: Vec<u8> = Vec::new();
    message.extend_from_slice(key);
    message.extend_from_slice(id);
    assert(message@ =~= key@ + guid());
    let sha1 = Sha1::new();
    let base64 = Base64::new();
    match sha1.hash_bytes(message.as_slice()) {
        Ok(digest) => Ok(base64.encode_bytes(digest.as_slice())),
        Err(_) => Err(WebSocketError::handshake("Failed to hash the response key")),
    }
}

/// The protocol's identifier has 36 bytes.
pub proof fn lemma_guid_len()
    ensures
        guid().len() == 36,
{
    reveal_strlit("258EAFA5-E914-47DA-95CA-C5AB0DC85B11");
    vstd::utf8::is_ascii_chars_encode_utf8("258EAFA5-E914-47DA-95CA-C5AB0DC85B11"@);
}

/// The response to the upgrade request `request`, as bytes. A request in
/// which no line starts with the key header is refused with a
/// `HandshakeError`; so is one whose key is too long to hash.
pub fn handshake_response(request: &[u8]) -> (r: Result<Vec<u8>, WebSocketError>)
    ensures
        match request_key(request@) {
            None => r is Err && r->Err_0@ == Fault::Handshake(missing_key_message()),
            Some(key) => if key.len() + 36 < MAX_MESSAGE_BYTES {
                r is Ok && r->Ok_0@ == response_spec(key)
            } else {
                r is Err && r->Err_0@ == Fault::Handshake(hash_failure_message())
            },
        },
        r is Ok ==> valid_utf8(r->Ok_0@),
{
    let at = match find_key_line(request) {
        Some(at) => at,
        None => {
            return Err(
                WebSocketError::handshake("Could not find Sec-WebSocket-Key in HTTP request header"),
            );
        },
    };
    let header = KEY_HEADER.as_bytes();
    assert(header@ == key_header());
    assert(at + header@.len() <= request.len());
    let from: usize = at + header.len();
    let to = find_line_end(request, from);
    let (lo, hi) = trim(request, from, to);
    let key = vstd::slice::slice_subrange(request, lo, hi);
    let accept = match accept_key(key) {
        Ok(a) => a,
        Err(e) => {
            return Err(e);
        },
    };
    let head = RESPONSE_HEAD.as_bytes();
    let tail = RESPONSE_TAIL.as_bytes();
    let mut response: Vec<u8> = Vec::new();
    response.extend_from_slice(head);
    response.extend_from_slice(accept.as_slice());
    response.extend_from_slice(tail);
    proof {
        assert(response@ =~= response_head() + accept@ + response_tail());
        encode_utf8_valid_utf8(RESPONSE_HEAD@);
        encode_utf8_valid_utf8(RESPONSE_TAIL@);
        lemma_ascii_is_utf8(accept@);
        valid_utf8_concat(response_head(), accept@);
        valid_utf8_concat(response_head() + accept@, response_tail());
    }
    Ok(response)
}

/// The response to the upgrade request `request`, as text.
pub fn process_handshake(request: &str) -> (r: Result<String, WebSocketError>)
    ensures
        match request_key(encode_utf8(request@)) {
            None => r is Err && r->Err_0@ == Fault::Handshake(missing_key_message()),
            Some(key) => if key.len() + 36 < MAX_MESSAGE_BYTES {
                r is Ok && encode_utf8(r->Ok_0@) == response_spec(key)
            } else {
                r is Err && r->Err_0@ == Fault::Handshake(hash_failure_message())
            },
        },
{
    let response = match handshake_response(request.as_bytes()) {
        Ok(bytes) => bytes,
        Err(e) => {
            return Err(e);
        },
    };
    match string_from_utf8(response) {
        Ok(s) => Ok(s),
        Err(_) => Err(WebSocketError::handshake("Failed to encode the hash as Base64")),
    }
}

} // verus!
