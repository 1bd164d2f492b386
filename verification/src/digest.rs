//! SHA-256 digests, written as lower-case hexadecimal text.

use sha2::Digest;
use vstd::prelude::*;
use vstd::string::StringSliceAdditionalSpecFns;

verus! {

/// The SHA-256 digest of `data`, as the `sha2` crate computes it.
pub uninterp spec fn sha256(data: Seq<u8>) -> Seq<u8>;

/// Calls `sha2::Sha256::digest`, which feeds `data` to a fresh hasher and
/// finalizes it. The result depends on the bytes alone and is always 32 bytes
/// long (the hasher's output size is `U32`), which the array type records.
#[verifier::external_body]
fn sha256_digest(data: &[u8]) -> (out: [u8; 32])
    ensures
        out@ == sha256(data@),
{
    sha2::Sha256::digest(data).into()
}

/// `String::push` appends one character to the end of the string.
pub assume_specification[ String::push ](text: &mut String, ch: char)
    ensures
        final(text)@ == old(text)@.push(ch),
;

/// The lower-case hexadecimal digit for a value below sixteen.
pub open spec fn hex_digit(nibble: int) -> char {
    seq!['0', '1', '2', '3', '4', '5', '6', '7', '8', '9', 'a', 'b', 'c', 'd', 'e', 'f'][nibble]
}

/// The character at position `at` of the hexadecimal text of `bytes`: the high
/// half of a byte comes first, then its low half.
pub open spec fn hex_char_at(bytes: Seq<u8>, at: int) -> char {
    if at % 2 == 0 {
        hex_digit(bytes[at / 2] as int / 16)
    } else {
        hex_digit(bytes[at / 2] as int % 16)
    }
}

/// The lower-case hexadecimal text of `bytes`, two characters per byte.
pub open spec fn hex_lower(bytes: Seq<u8>) -> Seq<char> {
    Seq::new(2 * bytes.len(), |at: int| hex_char_at(bytes, at))
}

/// The hexadecimal SHA-256 digest of the UTF-8 encoding of `text`.
pub open spec fn sha256_hex_of(text: Seq<char>) -> Seq<char> {
    hex_lower(sha256(vstd::utf8::encode_utf8(text)))
}

fn hex_digit_of(nibble: u8) -> (digit: char)
    requires
        nibble < 16,
    ensures
        digit == hex_digit(nibble as int),
{
    if nibble < 10 {
        (nibble + 48) as char
    } else {
        (nibble + 87) as char
    }
}

/// Writes `bytes` as lower-case hexadecimal text.
pub fn to_hex(bytes: &[u8]) -> (text: String)
    ensures
        text@ == hex_lower(bytes@),
{
    let mut text = String::new();
    let mut done: usize = 0;
    while done < bytes.len()
        invariant
            done <= bytes.len(),
            text@.len() == 2 * done,
            forall|at: int| 0 <= at < text@.len() ==> text@[at] == hex_char_at(bytes@, at),
        decreases bytes.len() - done,
    {
        let byte = bytes[done];
        text.push(hex_digit_of(byte / 16));
        text.push(hex_digit_of(byte % 16));
        done += 1;
    }
    text
}

/// The hexadecimal SHA-256 digest of `text`, as 64 lower-case characters.
pub fn sha256_hex(text: &str) -> (digest: String)
    ensures
        digest@ == sha256_hex_of(text@),
        digest@.len() == 64,
{
    let raw = sha256_digest(text.as_bytes());
    to_hex(raw.as_slice())
}

} // verus!
