//! The SHA-1 digest, stated as a mathematical function of the message bytes
//! and computed block by block.

use vstd::prelude::*;
use vstd::utf8::encode_utf8;
use vstd::wrapping::u32_specs::wrapping_add;

verus! {

/// The first word of the initial chaining value.
pub const H0: u32 = 0x67452301;

/// The second word of the initial chaining value.
pub const H1: u32 = 0xEFCDAB89;

/// The third word of the initial chaining value.
pub const H2: u32 = 0x98BADCFE;

/// The fourth word of the initial chaining value.
pub const H3: u32 = 0x10325476;

/// The fifth word of the initial chaining value.
pub const H4: u32 = 0xC3D2E1F0;

/// Messages of this many bytes or more have no 64-bit length in bits.
pub const MAX_MESSAGE_BYTES: u64 = 0x2000_0000_0000_0000;

/// The only way the digest can fail.
#[derive(Debug)]
pub enum Sha1Error {
    InputConversionFailure(String),
}

impl View for Sha1Error {
    type V = Seq<char>;

    /// What the error says.
    open spec fn view(&self) -> Seq<char> {
        match self {
            Sha1Error::InputConversionFailure(m) => m@,
        }
    }
}

/// What the error for a message too long to hash says.
pub open spec fn too_long_message() -> Seq<char> {
    "Message too long for SHA-1"@
}

/// What the error for a block that is no sequence of words says.
pub open spec fn conversion_message() -> Seq<char> {
    "Failed to convert chunk into u32"@
}

/// The five working words of the digest.
#[derive(Clone, Copy, Debug)]
pub struct State {
    pub a: u32,
    pub b: u32,
    pub c: u32,
    pub d: u32,
    pub e: u32,
}

/// `x` rotated left by `n` bits.
pub open spec fn rotl_spec(x: u32, n: u32) -> u32
    recommends
        0 < n < 32,
{
    (x << n) | (x >> ((32 - n) as u32))
}

/// The big-endian word made of four bytes.
pub open spec fn be_word(b0: u8, b1: u8, b2: u8, b3: u8) -> u32 {
    ((b0 as u32) << 24) | ((b1 as u32) << 16) | ((b2 as u32) << 8) | (b3 as u32)
}

/// The four bytes of a word, most significant first.
pub open spec fn be_bytes(x: u32) -> Seq<u8> {
    seq![
        (x >> 24) as u8,
        ((x >> 16) & 0xff) as u8,
        ((x >> 8) & 0xff) as u8,
        (x & 0xff) as u8,
    ]
}

/// The eight bytes of a 64-bit length, most significant first.
pub open spec fn length_bytes(bits: u64) -> Seq<u8> {
    seq![
        (bits >> 56) as u8,
        ((bits >> 48) & 0xff) as u8,
        ((bits >> 40) & 0xff) as u8,
        ((bits >> 32) & 0xff) as u8,
        ((bits >> 24) & 0xff) as u8,
        ((bits >> 16) & 0xff) as u8,
        ((bits >> 8) & 0xff) as u8,
        (bits & 0xff) as u8,
    ]
}

/// How many zero bytes follow the 0x80 marker: the fewest that bring the
/// length to 56 modulo 64.
pub open spec fn zero_count(len: int) -> int {
    (55 - len) % 64
}

/// The padded message: the message, the byte 0x80, zero bytes up to 56 modulo
/// 64, and the length of the message in bits as eight big-endian bytes.
pub open spec fn pad_spec(msg: Seq<u8>) -> Seq<u8>
    recommends
        msg.len() < MAX_MESSAGE_BYTES,
{
    msg + seq![0x80u8] + Seq::new(zero_count(msg.len() as int) as nat, |i: int| 0u8)
        + length_bytes((msg.len() * 8) as u64)
}

/// The first sixteen words of a block's schedule: the block's bytes taken four
/// at a time, and zero where the block has no four bytes left.
pub open spec fn block_words(chunk: Seq<u8>) -> Seq<u32> {
    Seq::new(
        16,
        |i: int|
            if 4 * i + 4 <= chunk.len() {
                be_word(chunk[4 * i], chunk[4 * i + 1], chunk[4 * i + 2], chunk[4 * i + 3])
            } else {
                0u32
            },
    )
}

/// Word `t` of the message schedule that starts with the sixteen words `init`.
pub open spec fn schedule_word(init: Seq<u32>, t: int) -> u32
    decreases t,
{
    if t < 16 {
        init[t]
    } else {
        rotl_spec(
            schedule_word(init, t - 3) ^ schedule_word(init, t - 8) ^ schedule_word(init, t - 14)
                ^ schedule_word(init, t - 16),
            1,
        )
    }
}

/// The eighty words of the message schedule.
pub open spec fn schedule_spec(init: Seq<u32>) -> Seq<u32> {
    Seq::new(80, |t: int| schedule_word(init, t))
}

/// The round function of round `t`.
pub open spec fn round_f(t: int, b: u32, c: u32, d: u32) -> u32 {
    if t < 20 {
        (b & c) | ((!b) & d)
    } else if t < 40 {
        b ^ c ^ d
    } else if t < 60 {
        (b & c) | (b & d) | (c & d)
    } else {
        b ^ c ^ d
    }
}

/// The round constant of round `t`.
pub open spec fn round_k(t: int) -> u32 {
    if t < 20 {
        0x5A827999
    } else if t < 40 {
        0x6ED9EBA1
    } else if t < 60 {
        0x8F1BBCDC
    } else {
        0xCA62C1D6
    }
}

/// One round: the working words after round `t` with schedule word `w`.
pub open spec fn step(s: State, t: int, w: u32) -> State {
    State {
        a: wrapping_add(
            wrapping_add(
                wrapping_add(wrapping_add(rotl_spec(s.a, 5), round_f(t, s.b, s.c, s.d)), s.e),
                round_k(t),
            ),
            w,
        ),
        b: s.a,
        c: rotl_spec(s.b, 30),
        d: s.c,
        e: s.d,
    }
}

/// The working words after the first `t` rounds over the schedule `w`.
pub open spec fn rounds(s: State, w: Seq<u32>, t: int) -> State
    decreases t,
{
    if t <= 0 {
        s
    } else {
        step(rounds(s, w, t - 1), t - 1, w[t - 1])
    }
}

/// The chaining value after one block with the schedule `w`: eighty rounds,
/// then word-wise addition.
pub open spec fn compress_with(h: State, w: Seq<u32>) -> State {
    let r = rounds(h, w, 80);
    State {
        a: wrapping_add(h.a, r.a),
        b: wrapping_add(h.b, r.b),
        c: wrapping_add(h.c, r.c),
        d: wrapping_add(h.d, r.d),
        e: wrapping_add(h.e, r.e),
    }
}

/// The chaining value after the block whose first sixteen schedule words are `init`.
pub open spec fn compress(h: State, init: Seq<u32>) -> State {
    compress_with(h, schedule_spec(init))
}

/// The initial chaining value.
pub open spec fn initial_state() -> State {
    State { a: H0, b: H1, c: H2, d: H3, e: H4 }
}

/// The chaining value after the first `n` blocks of 64 bytes of `msg`.
pub open spec fn digest_blocks(msg: Seq<u8>, n: int) -> State
    decreases n,
{
    if n <= 0 {
        initial_state()
    } else {
        compress(digest_blocks(msg, n - 1), block_words(msg.subrange(64 * (n - 1), 64 * n)))
    }
}

/// The twenty bytes of a chaining value.
pub open spec fn state_bytes(s: State) -> Seq<u8> {
    be_bytes(s.a) + be_bytes(s.b) + be_bytes(s.c) + be_bytes(s.d) + be_bytes(s.e)
}

/// The SHA-1 digest of `msg`.
pub open spec fn sha1_spec(msg: Seq<u8>) -> Seq<u8>
    recommends
        msg.len() < MAX_MESSAGE_BYTES,
{
    state_bytes(digest_blocks(pad_spec(msg), pad_spec(msg).len() as int / 64))
}

/// The padded message is a whole number of blocks.
pub proof fn lemma_pad_len(msg: Seq<u8>)
    ensures
        pad_spec(msg).len() == msg.len() + 9 + zero_count(msg.len() as int),
        0 <= zero_count(msg.len() as int) < 64,
        pad_spec(msg).len() % 64 == 0,
{
}

/// `x` rotated left by `n` bits.
fn rotl(x: u32, n: u32) -> (r: u32)
    requires
        0 < n < 32,
    ensures
        r == rotl_spec(x, n),
{
    (x << n) | (x >> (32 - n))
}

proof fn lemma_byte_casts(x: u32)
    by (bit_vector)
    ensures
        x >> 24 <= 0xff,
        (x >> 16) & 0xff <= 0xff,
        (x >> 8) & 0xff <= 0xff,
        x & 0xff <= 0xff,
{
}

proof fn lemma_length_casts(x: u64)
    by (bit_vector)
    ensures
        x >> 56 <= 0xff,
        (x >> 48) & 0xff <= 0xff,
        (x >> 40) & 0xff <= 0xff,
        (x >> 32) & 0xff <= 0xff,
        (x >> 24) & 0xff <= 0xff,
        (x >> 16) & 0xff <= 0xff,
        (x >> 8) & 0xff <= 0xff,
        x & 0xff <= 0xff,
{
}

fn push_word(out: &mut Vec<u8>, x: u32)
    ensures
        final(out)@ == old(out)@ + be_bytes(x),
{
    proof {
        lemma_byte_casts(x);
    }
    out.push((x >> 24) as u8);
    out.push(((x >> 16) & 0xff) as u8);
    out.push(((x >> 8) & 0xff) as u8);
    out.push((x & 0xff) as u8);
    assert(out@ =~= old(out)@ + be_bytes(x));
}

/// The SHA-1 hasher. It holds no state between calls.
pub struct Sha1;

impl Sha1 {
    /// A new hasher.
    pub fn new() -> (s: Sha1) {
        Sha1 {  }
    }

    /// The digest of the UTF-8 bytes of `key`. It fails only for a message
    /// whose length in bits does not fit in 64 bits.
    pub fn hash(&mut self, key: String) -> (r: Result<[u8; 20], Sha1Error>)
        ensures
            encode_utf8(key@).len() < MAX_MESSAGE_BYTES ==> r is Ok && r->Ok_0@ == sha1_spec(
                encode_utf8(key@),
            ),
            encode_utf8(key@).len() >= MAX_MESSAGE_BYTES ==> r is Err && r->Err_0@
                == too_long_message(),
    {
        self.hash_bytes(key.as_str().as_bytes())
    }

    /// The digest of `data`. It fails only for a message whose length in bits
    /// does not fit in 64 bits.
    pub fn hash_bytes(&self, data: &[u8]) -> (r: Result<[u8; 20], Sha1Error>)
        ensures
            data@.len() < MAX_MESSAGE_BYTES ==> r is Ok && r->Ok_0@ == sha1_spec(data@),
            data@.len() >= MAX_MESSAGE_BYTES ==> r is Err && r->Err_0@ == too_long_message(),
    {
        if data.len() as u64 >= MAX_MESSAGE_BYTES {
            return Err(
                Sha1Error::InputConversionFailure("Message too long for SHA-1".to_owned()),
            );
        }
        let msg = self.pad_bytes(data);
        proof {
            lemma_pad_len(data@);
        }
        let blocks: usize = msg.len() / 64;
        let mut h = State { a: H0, b: H1, c: H2, d: H3, e: H4 };
        let mut n: usize = 0;
        while n < blocks
            invariant
                n <= blocks,
                blocks * 64 == msg.len(),
                h == digest_blocks(msg@, n as int),
            decreases blocks - n,
        {
            let chunk = vstd::slice::slice_subrange(msg.as_slice(), n * 64, n * 64 + 64);
            let schedule = match self.build_schedule(chunk) {
                Ok(s) => s,
                Err(e) => {
                    return Err(e);
                },
            };
            h = Self::compress_block(h, &schedule);
            n += 1;
        }
        let mut out: Vec<u8> = Vec::with_capacity(20);
        push_word(&mut out, h.a);
        push_word(&mut out, h.b);
        push_word(&mut out, h.c);
        push_word(&mut out, h.d);
        push_word(&mut out, h.e);
        assert(out@ =~= state_bytes(h));
        let mut digest: [u8; 20] = [0u8; 20];
        let mut i: usize = 0;
        while i < 20
            invariant
                i <= 20,
                out@.len() == 20,
                forall|j: int| 0 <= j < i ==> digest@[j] == out@[j],
            decreases 20 - i,
        {
            digest[i] = out[i];
            i += 1;
        }
        assert(digest@ =~= out@);
        Ok(digest)
    }

    /// The chaining value after one block, from the block's schedule.
    pub fn compress_block(h: State, schedule: &[u32; 80]) -> (r: State)
        ensures
            r == compress_with(h, schedule@),
    {
        let mut s = h;
        let mut t: usize = 0;
        while t < 80
            invariant
                t <= 80,
                s == rounds(h, schedule@, t as int),
            decreases 80 - t,
        {
            let f: u32 = if t < 20 {
                (s.b & s.c) | ((!s.b) & s.d)
            } else if t < 40 {
                s.b ^ s.c ^ s.d
            } else if t < 60 {
                (s.b & s.c) | (s.b & s.d) | (s.c & s.d)
            } else {
                s.b ^ s.c ^ s.d
            };
            let k: u32 = if t < 20 {
                0x5A827999
            } else if t < 40 {
                0x6ED9EBA1
            } else if t < 60 {
                0x8F1BBCDC
            } else {
                0xCA62C1D6
            };
            let temp = rotl(s.a, 5).wrapping_add(f).wrapping_add(s.e).wrapping_add(
                k,
            ).wrapping_add(schedule[t]);
            s = State { a: temp, b: s.a, c: rotl(s.b, 30), d: s.c, e: s.d };
            t += 1;
        }
        State {
            a: h.a.wrapping_add(s.a),
            b: h.b.wrapping_add(s.b),
            c: h.c.wrapping_add(s.c),
            d: h.d.wrapping_add(s.d),
            e: h.e.wrapping_add(s.e),
        }
    }

    /// Pads the UTF-8 bytes of `input` as SHA-1 asks.
    pub fn pad_message(&self, input: &str) -> (bytes: Vec<u8>)
        requires
            encode_utf8(input@).len() < MAX_MESSAGE_BYTES,
        ensures
            bytes@ == pad_spec(encode_utf8(input@)),
    {
        self.pad_bytes(input.as_bytes())
    }

    /// Pads `data` as SHA-1 asks.
    pub fn pad_bytes(&self, data: &[u8]) -> (bytes: Vec<u8>)
        requires
            data@.len() < MAX_MESSAGE_BYTES,
        ensures
            bytes@ == pad_spec(data@),
    {
        let mut bytes: Vec<u8> = Vec::new();
        bytes.extend_from_slice(data);
        assert(bytes@ =~= data@);
        let bits: u64 = (data.len() as u64) * 8;
        bytes.push(0x80);
        let ghost base = bytes@;
        let mut zeros: usize = 0;
        while bytes.len() % 64 != 56
            invariant
                base == data@ + seq![0x80u8],
                bytes@ == base + Seq::new(zeros as nat, |i: int| 0u8),
                zeros <= zero_count(data@.len() as int),
                zeros < 64,
            decreases 64 - zeros,
        {
            bytes.push(0);
            zeros += 1;
            assert(bytes@ =~= base + Seq::new(zeros as nat, |i: int| 0u8));
        }
        assert(zeros == zero_count(data@.len() as int));
        proof {
            lemma_length_casts(bits);
        }
        bytes.push((bits >> 56) as u8);
        bytes.push(((bits >> 48) & 0xff) as u8);
        bytes.push(((bits >> 40) & 0xff) as u8);
        bytes.push(((bits >> 32) & 0xff) as u8);
        bytes.push(((bits >> 24) & 0xff) as u8);
        bytes.push(((bits >> 16) & 0xff) as u8);
        bytes.push(((bits >> 8) & 0xff) as u8);
        bytes.push((bits & 0xff) as u8);
        assert(bytes@ =~= pad_spec(data@));
        bytes
    }

    /// The message schedule of one block. A block whose length is no multiple
    /// of four is refused.
    pub fn build_schedule(&self, chunk: &[u8]) -> (r: Result<[u32; 80], Sha1Error>)
        requires
            chunk@.len() < 324,
        ensures
            chunk@.len() % 4 == 0 ==> r is Ok && r->Ok_0@ == schedule_spec(block_words(chunk@)),
            chunk@.len() % 4 != 0 ==> r is Err && r->Err_0@ == conversion_message(),
    {
        if chunk.len() % 4 != 0 {
            return Err(
                Sha1Error::InputConversionFailure("Failed to convert chunk into u32".to_owned()),
            );
        }
        let ghost init = block_words(chunk@);
        let mut schedule: [u32; 80] = [0u32; 80];
        let words: usize = if chunk.len() / 4 < 16 {
            chunk.len() / 4
        } else {
            16
        };
        let mut i: usize = 0;
        while i < words
            invariant
                i <= words <= 16,
                words * 4 <= chunk@.len(),
                words == 16 || words * 4 == chunk@.len(),
                init == block_words(chunk@),
                forall|j: int| 0 <= j < i ==> schedule@[j] == init[j],
                forall|j: int| i <= j < 80 ==> schedule@[j] == 0u32,
            decreases words - i,
        {
            let w: u32 = ((chunk[4 * i] as u32) << 24) | ((chunk[4 * i + 1] as u32) << 16) | ((
            chunk[4 * i + 2] as u32) << 8) | (chunk[4 * i + 3] as u32);
            schedule[i] = w;
            i += 1;
        }
        let mut t: usize = 16;
        while t < 80
            invariant
                16 <= t <= 80,
                forall|j: int| 0 <= j < t ==> schedule@[j] == schedule_word(init, j),
            decreases 80 - t,
        {
            let x: u32 = schedule[t - 3] ^ schedule[t - 8] ^ schedule[t - 14] ^ schedule[t - 16];
            let ghost before = schedule@;
            assert(x == schedule_word(init, t - 3) ^ schedule_word(init, t - 8) ^ schedule_word(
                init,
                t - 14,
            ) ^ schedule_word(init, t - 16));
            assert(rotl_spec(x, 1) == schedule_word(init, t as int));
            schedule[t] = rotl(x, 1);
            assert(schedule@ == before.update(t as int, rotl_spec(x, 1)));
            t += 1;
        }
        assert(schedule@ =~= schedule_spec(init));
        Ok(schedule)
    }
}

} // verus!
