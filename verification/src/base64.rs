//! Base64 with the standard alphabet and `=` padding.

use vstd::prelude::*;
use vstd::utf8::{encode_utf8, valid_utf8, encode_utf8_valid_utf8, encode_utf8_decode_utf8};
use crate::text::{string_from_utf8, lemma_ascii_is_utf8, lemma_ascii_text};

verus! {

/// The padding byte, `=`.
pub const PAD: u8 = 61;

/// Why a text could not be encoded or decoded.
#[derive(Debug)]
pub enum Base64Error {
    /// A character of the input, other than `=`, is none of the alphabet.
    InvalidCharacter,
    /// The decoded bytes are no UTF-8 text.
    Utf8Error(std::string::FromUtf8Error),
}

/// The alphabet: the byte that stands for the six-bit value `v`.
/// `A`-`Z`, `a`-`z`, `0`-`9`, `+`, `/`.
pub open spec fn alphabet(v: u8) -> u8
    recommends
        v < 64,
{
    if v < 26 {
        (65 + v) as u8
    } else if v < 52 {
        (97 + (v - 26)) as u8
    } else if v < 62 {
        (48 + (v - 52)) as u8
    } else if v == 62 {
        43
    } else {
        47
    }
}

/// The six-bit value that the byte `b` stands for, if it is of the alphabet.
pub open spec fn value_of(b: u8) -> Option<u8> {
    if 65 <= b <= 90 {
        Some((b - 65) as u8)
    } else if 97 <= b <= 122 {
        Some((b - 97 + 26) as u8)
    } else if 48 <= b <= 57 {
        Some((b - 48 + 52) as u8)
    } else if b == 43 {
        Some(62u8)
    } else if b == 47 {
        Some(63u8)
    } else {
        None
    }
}

/// Byte `i` of `data`, and zero behind its end.
pub open spec fn byte_or_zero(data: Seq<u8>, i: int) -> u8 {
    if 0 <= i < data.len() {
        data[i]
    } else {
        0
    }
}

/// The `k`-th group of six bits of `data`, read as one stream of bits and
/// filled with zero bits behind its end.
pub open spec fn sextet(data: Seq<u8>, k: int) -> u8 {
    let g = k / 4;
    let b0 = byte_or_zero(data, 3 * g);
    let b1 = byte_or_zero(data, 3 * g + 1);
    let b2 = byte_or_zero(data, 3 * g + 2);
    if k % 4 == 0 {
        b0 >> 2
    } else if k % 4 == 1 {
        ((b0 & 3) << 4) | (b1 >> 4)
    } else if k % 4 == 2 {
        ((b1 & 15) << 2) | (b2 >> 6)
    } else {
        b2 & 63
    }
}

/// The number of output bytes: four for every three bytes of input, begun or whole.
pub open spec fn encoded_len(len: int) -> int {
    4 * ((len + 2) / 3)
}

/// Byte `k` of the encoding of `data`: a letter of the alphabet where the
/// group of six bits holds a bit of `data`, and `=` where it holds none.
pub open spec fn encoded_byte(data: Seq<u8>, k: int) -> u8 {
    if 3 * (k / 4) + (k % 4) <= data.len() {
        alphabet(sextet(data, k))
    } else {
        PAD
    }
}

/// The Base64 encoding of `data`.
pub open spec fn encode_spec(data: Seq<u8>) -> Seq<u8> {
    Seq::new(encoded_len(data.len() as int) as nat, |k: int| encoded_byte(data, k))
}

/// What the decoder reads of a character: the low eight bits of its number.
pub open spec fn low_byte(c: char) -> u8 {
    ((c as u32) % 256) as u8
}

/// The bytes that the decoder reads of `text`: every character but `=`, in order.
pub open spec fn symbols(text: Seq<char>) -> Seq<u8>
    decreases text.len(),
{
    if text.len() == 0 {
        Seq::empty()
    } else if text.last() == '=' {
        symbols(text.drop_last())
    } else {
        symbols(text.drop_last()).push(low_byte(text.last()))
    }
}

/// Whether every byte of `syms` is of the alphabet.
pub open spec fn all_valid(syms: Seq<u8>) -> bool {
    forall|i: int| 0 <= i < syms.len() ==> value_of(#[trigger] syms[i]) is Some
}

/// The six-bit value of symbol `i`.
pub open spec fn value_at(syms: Seq<u8>, i: int) -> u8 {
    value_of(syms[i]).unwrap()
}

/// Byte `j` of what the symbols `syms` decode to: bits `8j` to `8j + 7` of
/// their six-bit values read as one stream.
pub open spec fn decoded_byte(syms: Seq<u8>, j: int) -> u8 {
    let g = j / 3;
    if j % 3 == 0 {
        (value_at(syms, 4 * g) << 2) | (value_at(syms, 4 * g + 1) >> 4)
    } else if j % 3 == 1 {
        ((value_at(syms, 4 * g + 1) & 15) << 4) | (value_at(syms, 4 * g + 2) >> 2)
    } else {
        ((value_at(syms, 4 * g + 2) & 3) << 6) | value_at(syms, 4 * g + 3)
    }
}

/// The bytes that the symbols `syms` decode to: as many as their bits fill.
pub open spec fn decode_symbols(syms: Seq<u8>) -> Seq<u8> {
    Seq::new((syms.len() * 6 / 8) as nat, |j: int| decoded_byte(syms, j))
}

/// The bytes that `text` decodes to, where all its symbols are valid.
pub open spec fn decode_spec(text: Seq<char>) -> Seq<u8> {
    decode_symbols(symbols(text))
}

proof fn lemma_sextet_bounds(b0: u8, b1: u8, b2: u8)
    by (bit_vector)
    ensures
        b0 >> 2 < 64,
        ((b0 & 3) << 4) | (b1 >> 4) < 64,
        ((b1 & 15) << 2) | (b2 >> 6) < 64,
        b2 & 63 < 64,
{
}

fn alphabet_byte(v: u8) -> (b: u8)
    requires
        v < 64,
    ensures
        b == alphabet(v),
        b < 128,
        value_of(b) == Some(v),
{
    if v < 26 {
        65 + v
    } else if v < 52 {
        97 + (v - 26)
    } else if v < 62 {
        48 + (v - 52)
    } else if v == 62 {
        43
    } else {
        47
    }
}

fn symbol_value(b: u8) -> (r: Option<u8>)
    ensures
        r == value_of(b),
        r matches Some(v) ==> v < 64,
{
    if 65 <= b && b <= 90 {
        Some(b - 65)
    } else if 97 <= b && b <= 122 {
        Some(b - 97 + 26)
    } else if 48 <= b && b <= 57 {
        Some(b - 48 + 52)
    } else if b == 43 {
        Some(62)
    } else if b == 47 {
        Some(63)
    } else {
        None
    }
}

/// The Base64 codec. It holds no state between calls.
pub struct Base64;

impl Base64 {
    /// A new codec.
    pub fn new() -> (b: Base64) {
        Base64 {  }
    }

    /// The Base64 encoding of `data`, as bytes of the alphabet and `=`.
    pub fn encode_bytes(&self, data: &[u8]) -> (out: Vec<u8>)
        ensures
            out@ == encode_spec(data@),
            forall|i: int| 0 <= i < out@.len() ==> out@[i] < 128,
    {
        let groups: usize = data.len() / 3 + (if data.len() % 3 == 0 {
            0
        } else {
            1
        });
        let mut out: Vec<u8> = Vec::new();
        let mut g: usize = 0;
        while g < groups
            invariant
                g <= groups,
                groups == (data@.len() + 2) / 3,
                data@.len() == data.len(),
                out@.len() == 4 * g,
                forall|k: int| 0 <= k < 4 * g ==> out@[k] == encoded_byte(data@, k),
                forall|k: int| 0 <= k < 4 * g ==> out@[k] < 128,
            decreases groups - g,
        {
            let base: usize = 3 * g;
            let b0: u8 = data[base];
            let b1: u8 = if base + 1 < data.len() {
                data[base + 1]
            } else {
                0
            };
            let b2: u8 = if base + 2 < data.len() {
                data[base + 2]
            } else {
                0
            };
            proof {
                lemma_sextet_bounds(b0, b1, b2);
                assert(b0 == byte_or_zero(data@, 3 * g));
                assert(b1 == byte_or_zero(data@, 3 * g + 1));
                assert(b2 == byte_or_zero(data@, 3 * g + 2));
            }
            let ghost before = out@;
            let c0 = alphabet_byte(b0 >> 2);
            let c1 = alphabet_byte(((b0 & 3) << 4) | (b1 >> 4));
            let c2 = if base + 1 < data.len() {
                alphabet_byte(((b1 & 15) << 2) | (b2 >> 6))
            } else {
                PAD
            };
            let c3 = if base + 2 < data.len() {
                alphabet_byte(b2 & 63)
            } else {
                PAD
            };
            out.push(c0);
            out.push(c1);
            out.push(c2);
            out.push(c3);
            proof {
                let k0 = 4 * g as int;
                assert(k0 / 4 == g && k0 % 4 == 0);
                assert((k0 + 1) / 4 == g && (k0 + 1) % 4 == 1);
                assert((k0 + 2) / 4 == g && (k0 + 2) % 4 == 2);
                assert((k0 + 3) / 4 == g && (k0 + 3) % 4 == 3);
                assert(out@[k0] == encoded_byte(data@, k0));
                assert(out@[k0 + 1] == encoded_byte(data@, k0 + 1));
                assert(out@[k0 + 2] == encoded_byte(data@, k0 + 2));
                assert(out@[k0 + 3] == encoded_byte(data@, k0 + 3));
                assert forall|k: int| 0 <= k < 4 * (g + 1) implies out@[k] == encoded_byte(
                    data@,
                    k,
                ) by {
                    if k < k0 {
                        assert(out@[k] == before[k]);
                    }
                }
            }
            g += 1;
        }
        assert(out@ =~= encode_spec(data@));
        out
    }

    /// The Base64 encoding of the UTF-8 bytes of `input`.
    pub fn encode(&mut self, input: &str) -> (r: Result<String, Base64Error>)
        ensures
            r is Ok,
            encode_utf8(r->Ok_0@) == encode_spec(encode_utf8(input@)),
    {
        let encoded = self.encode_bytes(input.as_bytes());
        proof {
            lemma_ascii_is_utf8(encoded@);
        }
        match string_from_utf8(encoded) {
            Ok(s) => Ok(s),
            Err(e) => Err(Base64Error::Utf8Error(e)),
        }
    }

    /// The bytes that `input` decodes to. Every `=` is passed over, wherever it
    /// stands; any other character that is none of the alphabet is refused.
    pub fn decode_bytes(&self, input: &str) -> (r: Result<Vec<u8>, Base64Error>)
        ensures
            all_valid(symbols(input@)) ==> r is Ok && r->Ok_0@ == decode_spec(input@),
            !all_valid(symbols(input@)) ==> r is Err && r->Err_0 is InvalidCharacter,
    {
        let mut vals: Vec<u8> = Vec::new();
        let ghost mut seen: int = 0;
        for c in it: input.chars()
            invariant
                seen == it.index(),
                it.seq() == input@,
                vals@.len() == symbols(input@.take(seen)).len(),
                all_valid(symbols(input@.take(seen))),
                forall|i: int|
                    0 <= i < vals@.len() ==> vals@[i] == value_at(symbols(input@.take(seen)), i),
                forall|i: int| 0 <= i < vals@.len() ==> vals@[i] < 64,
        {
            proof {
                assert(input@.take(seen + 1).drop_last() =~= input@.take(seen));
                assert(input@.take(seen + 1).last() == c);
            }
            if c != '=' {
                let b: u8 = ((c as u32) % 256) as u8;
                match symbol_value(b) {
                    Some(v) => {
                        vals.push(v);
                    },
                    None => {
                        proof {
                            let s = symbols(input@.take(seen + 1));
                            assert(value_of(s[s.len() - 1]) is None);
                            lemma_invalid_prefix(input@, seen + 1);
                        }
                        return Err(Base64Error::InvalidCharacter);
                    },
                }
            }
            proof {
                seen = seen + 1;
            }
        }
        assert(input@.take(seen) =~= input@);
        let ghost syms = symbols(input@);
        let count: usize = vals.len() / 4 * 3 + (if vals.len() % 4 == 0 {
            0
        } else {
            vals.len() % 4 - 1
        });
        assert(count == syms.len() * 6 / 8);
        let mut out: Vec<u8> = Vec::new();
        let mut j: usize = 0;
        while j < count
            invariant
                j <= count,
                count == syms.len() * 6 / 8,
                vals@.len() == syms.len(),
                vals@.len() == vals.len(),
                all_valid(syms),
                forall|i: int| 0 <= i < vals@.len() ==> vals@[i] == value_at(syms, i),
                forall|i: int| 0 <= i < vals@.len() ==> vals@[i] < 64,
                out@.len() == j,
                forall|i: int| 0 <= i < j ==> out@[i] == decoded_byte(syms, i),
            decreases count - j,
        {
            let g: usize = j / 3;
            let r: usize = j % 3;
            assert(4 * g + r + 1 < vals.len());
            let hi: u8 = vals[4 * g + r];
            let lo: u8 = vals[4 * g + r + 1];
            let byte: u8 = if r == 0 {
                (hi << 2) | (lo >> 4)
            } else if r == 1 {
                ((hi & 15) << 4) | (lo >> 2)
            } else {
                ((hi & 3) << 6) | lo
            };
            out.push(byte);
            j += 1;
        }
        assert(out@ =~= decode_symbols(syms));
        Ok(out)
    }

    /// The text that `input` decodes to: the decoded bytes, where they are UTF-8.
    pub fn decode(&mut self, input: &str) -> (r: Result<String, Base64Error>)
        ensures
            !all_valid(symbols(input@)) ==> r is Err && r->Err_0 is InvalidCharacter,
            all_valid(symbols(input@)) && !valid_utf8(decode_spec(input@)) ==> r is Err
                && r->Err_0 is Utf8Error,
            all_valid(symbols(input@)) && valid_utf8(decode_spec(input@)) ==> r is Ok
                && encode_utf8(r->Ok_0@) == decode_spec(input@),
    {
        let decoded = match self.decode_bytes(input) {
            Ok(d) => d,
            Err(e) => {
                return Err(e);
            },
        };
        match string_from_utf8(decoded) {
            Ok(s) => Ok(s),
            Err(e) => Err(Base64Error::Utf8Error(e)),
        }
    }
}

/// A text with an invalid symbol among its first `n` characters has one.
pub proof fn lemma_invalid_prefix(text: Seq<char>, n: int)
    requires
        0 <= n <= text.len(),
        !all_valid(symbols(text.take(n))),
    ensures
        !all_valid(symbols(text)),
    decreases text.len() - n,
{
    if n < text.len() {
        assert(text.take(n + 1).drop_last() =~= text.take(n));
        let s = symbols(text.take(n));
        let i = choose|i: int| 0 <= i < s.len() && !(value_of(#[trigger] s[i]) is Some);
        let s1 = symbols(text.take(n + 1));
        assert(s1[i] == s[i]);
        lemma_invalid_prefix(text, n + 1);
    } else {
        assert(text.take(n) =~= text);
    }
}

/// How many bytes of the encoding of `len` bytes are letters of the alphabet;
/// the rest is padding.
pub open spec fn letter_count(len: int) -> int {
    (len / 3) * 4 + if len % 3 == 0 {
        0
    } else {
        len % 3 + 1
    }
}

proof fn lemma_sextets_join(b0: u8, b1: u8, b2: u8)
    by (bit_vector)
    ensures
        ((b0 >> 2) << 2) | ((((b0 & 3) << 4) | (b1 >> 4)) >> 4) == b0,
        (((((b0 & 3) << 4) | (b1 >> 4)) & 15) << 4) | ((((b1 & 15) << 2) | (b2 >> 6)) >> 2) == b1,
        (((((b1 & 15) << 2) | (b2 >> 6)) & 3) << 6) | (b2 & 63) == b2,
{
}

/// Every byte of an encoding is below 128; its letters come first and stand
/// for the groups of six bits, and what follows them is padding.
pub proof fn lemma_encoding_shape(data: Seq<u8>)
    ensures
        encode_spec(data).len() == encoded_len(data.len() as int),
        0 <= letter_count(data.len() as int) <= encoded_len(data.len() as int),
        forall|k: int|
            0 <= k < encode_spec(data).len() ==> #[trigger] encode_spec(data)[k] < 128,
        forall|k: int|
            0 <= k < letter_count(data.len() as int) ==> value_of(
                #[trigger] encode_spec(data)[k],
            ) == Some(sextet(data, k)),
        forall|k: int|
            letter_count(data.len() as int) <= k < encode_spec(data).len()
                ==> #[trigger] encode_spec(data)[k] == PAD,
{
    let enc = encode_spec(data);
    assert forall|k: int| 0 <= k < enc.len() implies #[trigger] enc[k] < 128 && (k
        < letter_count(data.len() as int) ==> value_of(enc[k]) == Some(sextet(data, k))) && (k
        >= letter_count(data.len() as int) ==> enc[k] == PAD) by {
        let g = k / 4;
        lemma_sextet_bounds(
            byte_or_zero(data, 3 * g),
            byte_or_zero(data, 3 * g + 1),
            byte_or_zero(data, 3 * g + 2),
        );
        assert(sextet(data, k) < 64);
    }
}

proof fn lemma_symbols_of_encoding(data: Seq<u8>, text: Seq<char>, n: int)
    requires
        encode_utf8(text) == encode_spec(data),
        0 <= n <= text.len(),
    ensures
        symbols(text.take(n)) == encode_spec(data).take(
            if n <= letter_count(data.len() as int) {
                n
            } else {
                letter_count(data.len() as int)
            },
        ),
    decreases n,
{
    let enc = encode_spec(data);
    lemma_encoding_shape(data);
    lemma_ascii_text(text, enc);
    let m = letter_count(data.len() as int);
    if n == 0 {
        assert(text.take(0) =~= Seq::<char>::empty());
        assert(enc.take(0) =~= Seq::<u8>::empty());
    } else {
        lemma_symbols_of_encoding(data, text, n - 1);
        assert(text.take(n).drop_last() =~= text.take(n - 1));
        let c = text.take(n).last();
        assert(c == text[n - 1]);
        assert(c as u32 == enc[n - 1] as u32);
        if n <= m {
            assert(value_of(enc[n - 1]) is Some);
            assert(enc[n - 1] != PAD);
            assert(low_byte(c) == enc[n - 1]);
            assert(enc.take(n - 1).push(enc[n - 1]) =~= enc.take(n));
        } else {
            assert(enc[n - 1] == PAD);
            assert(c == '=');
        }
    }
}

/// Decoding undoes encoding: a text whose bytes are the encoding of `data`
/// has valid symbols only, and decodes to `data`.
pub proof fn lemma_decode_encode(data: Seq<u8>, text: Seq<char>)
    requires
        encode_utf8(text) == encode_spec(data),
    ensures
        all_valid(symbols(text)),
        decode_spec(text) == data,
{
    let enc = encode_spec(data);
    let len = data.len() as int;
    let m = letter_count(len);
    lemma_encoding_shape(data);
    lemma_ascii_text(text, enc);
    lemma_symbols_of_encoding(data, text, text.len() as int);
    assert(text.take(text.len() as int) =~= text);
    let syms = symbols(text);
    assert(syms == enc.take(m));
    assert forall|i: int| 0 <= i < syms.len() implies value_of(#[trigger] syms[i]) is Some by {
        assert(syms[i] == enc[i]);
    }
    assert(syms.len() * 6 / 8 == len);
    assert forall|j: int| 0 <= j < len implies decoded_byte(syms, j) == data[j] by {
        let g = j / 3;
        let b0 = byte_or_zero(data, 3 * g);
        let b1 = byte_or_zero(data, 3 * g + 1);
        let b2 = byte_or_zero(data, 3 * g + 2);
        lemma_sextets_join(b0, b1, b2);
        assert(4 * g + j % 3 + 1 < m);
        assert(syms[4 * g + j % 3] == enc[4 * g + j % 3]);
        assert(syms[4 * g + j % 3 + 1] == enc[4 * g + j % 3 + 1]);
        assert(value_at(syms, 4 * g + j % 3) == sextet(data, 4 * g + j % 3));
        assert(value_at(syms, 4 * g + j % 3 + 1) == sextet(data, 4 * g + j % 3 + 1));
        assert((4 * g + j % 3) / 4 == g && (4 * g + j % 3) % 4 == j % 3);
        assert((4 * g + j % 3 + 1) / 4 == g && (4 * g + j % 3 + 1) % 4 == j % 3 + 1);
    }
    assert(decode_symbols(syms) =~= data);
}

/// Encoding a text and decoding the result gives the text back: the encoded
/// text has valid symbols only, its decoded bytes are UTF-8, and the text
/// they encode is the one that was put in.
pub proof fn lemma_text_round_trip(input: Seq<char>, encoded: Seq<char>, decoded: Seq<char>)
    requires
        encode_utf8(encoded) == encode_spec(encode_utf8(input)),
        encode_utf8(decoded) == decode_spec(encoded),
    ensures
        all_valid(symbols(encoded)),
        valid_utf8(decode_spec(encoded)),
        decoded == input,
{
    lemma_decode_encode(encode_utf8(input), encoded);
    encode_utf8_valid_utf8(input);
    encode_utf8_decode_utf8(input);
    encode_utf8_decode_utf8(decoded);
}

} // verus!
