//! Text as bytes: what the standard library's UTF-8 validation is taken to do.
//! The two calls into it stand here, with what is believed of them unproved.

use vstd::prelude::*;
use vstd::utf8::{
    encode_utf8, valid_utf8, partial_valid_utf8, is_leading_byte_width_1, is_ascii_chars,
    is_ascii_chars_encode_utf8, encode_utf8_decode_utf8,
};
use vstd::utf8::partial_valid_utf8_extend_ascii_block;

verus! {

/// The standard library's report of where a byte string stops being UTF-8.
/// Nothing is known of its contents here; it is carried to the caller as it came.
#[verifier::external_type_specification]
#[verifier::external_body]
pub struct ExUtf8Error(core::str::Utf8Error);

/// The standard library's report that a byte vector was no UTF-8; it holds the
/// vector. Nothing is known of its contents here.
#[verifier::external_type_specification]
#[verifier::external_body]
pub struct ExFromUtf8Error(std::string::FromUtf8Error);

/// `String::from_utf8`: the string whose UTF-8 encoding is `bytes`, where
/// `bytes` is valid UTF-8, and an error where it is not.
#[verifier::external_body]
pub(crate) fn string_from_utf8(bytes: Vec<u8>) -> (r: Result<String, std::string::FromUtf8Error>)
    ensures
        r is Ok <==> valid_utf8(bytes@),
        r matches Ok(s) ==> encode_utf8(s@) == bytes@,
{
    String::from_utf8(bytes)
}

/// `core::str::from_utf8`: the bytes as a string slice, where they are valid
/// UTF-8, and an error where they are not.
#[verifier::external_body]
pub(crate) fn str_from_utf8(bytes: &[u8]) -> (r: Result<&str, core::str::Utf8Error>)
    ensures
        r is Ok <==> valid_utf8(bytes@),
        r matches Ok(s) ==> encode_utf8(s@) == bytes@,
{
    core::str::from_utf8(bytes)
}

/// Bytes below 128 are valid UTF-8: each is one character.
pub proof fn lemma_ascii_is_utf8(bytes: Seq<u8>)
    requires
        forall|i: int| 0 <= i < bytes.len() ==> bytes[i] < 128,
    ensures
        valid_utf8(bytes),
{
    assert forall|i: int| 0 <= i < bytes.len() implies #[trigger] is_leading_byte_width_1(
        bytes[i],
    ) by {
        assert(bytes[i] < 128);
    }
    assert(bytes.subrange(0, 0) =~= Seq::<u8>::empty());
    assert(partial_valid_utf8(bytes, 0));
    partial_valid_utf8_extend_ascii_block(bytes, 0, bytes.len() as int);
    assert(bytes.subrange(0, bytes.len() as int) =~= bytes);
}

/// The text whose characters are the bytes `bytes`, each below 128.
pub open spec fn ascii_text(bytes: Seq<u8>) -> Seq<char> {
    Seq::new(bytes.len(), |i: int| bytes[i] as char)
}

/// A text whose UTF-8 encoding is made of bytes below 128 has one character
/// for each byte, with the byte as its number.
pub proof fn lemma_ascii_text(text: Seq<char>, bytes: Seq<u8>)
    requires
        encode_utf8(text) == bytes,
        forall|i: int| 0 <= i < bytes.len() ==> bytes[i] < 128,
    ensures
        text == ascii_text(bytes),
        text.len() == bytes.len(),
        forall|i: int| 0 <= i < text.len() ==> #[trigger] text[i] as u32 == bytes[i] as u32,
{
    let t = ascii_text(bytes);
    assert(is_ascii_chars(t));
    is_ascii_chars_encode_utf8(t);
    assert(encode_utf8(t) =~= bytes);
    encode_utf8_decode_utf8(t);
    encode_utf8_decode_utf8(text);
}

} // verus!
