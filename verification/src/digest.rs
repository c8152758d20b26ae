//! The integrity digest of a file: SHA-256, written as 64 lower-case
//! hexadecimal digits.

use crate::text::{is_ascii_bytes, string_from_ascii};
use sha2::{Digest, Sha256};
use vstd::prelude::*;
use vstd::utf8::*;

verus! {

/// The number of bytes in a raw digest.
pub const RAW_DIGEST_LEN: usize = 32;

/// The number of characters in a digest as it is written.
pub const DIGEST_LEN: usize = 64;

/// The SHA-256 digest of `data`: what `Sha256::digest` of the `sha2` crate
/// returns for it.
pub uninterp spec fn sha256(data: Seq<u8>) -> Seq<u8>;

/// Computes the SHA-256 digest of `data`.
///
/// This is `Sha256::digest` of the `sha2` crate, whose result is copied into
/// a vector. Taken on trust: the result depends on `data` alone, and it is
/// 32 bytes long, the output size that the crate declares for `Sha256`.
#[verifier::external_body]
fn sha256_raw(data: &[u8]) -> (raw: Vec<u8>)
    ensures
        raw@ == sha256(data@),
        raw@.len() == RAW_DIGEST_LEN,
{
    Sha256::digest(data).to_vec()
}

/// The lower-case hexadecimal digit for `nibble`, as an ASCII byte.
pub open spec fn hex_digit(nibble: int) -> u8 {
    if nibble < 10 {
        (0x30 + nibble) as u8
    } else {
        (0x57 + nibble) as u8
    }
}

/// Whether `byte` is one of `0`-`9`, `a`-`f`.
pub open spec fn is_hex_digit(byte: u8) -> bool {
    0x30 <= byte <= 0x39 || 0x61 <= byte <= 0x66
}

/// Whether `bytes` are hexadecimal digits throughout.
pub open spec fn is_hex(bytes: Seq<u8>) -> bool {
    forall|i: int| 0 <= i < bytes.len() ==> is_hex_digit(#[trigger] bytes[i])
}

/// `bytes` written in hexadecimal: two digits for each byte, the high half
/// first.
pub open spec fn hex(bytes: Seq<u8>) -> Seq<u8> {
    Seq::new(
        2 * bytes.len(),
        |i: int|
            if i % 2 == 0 {
                hex_digit(bytes[i / 2] as int / 16)
            } else {
                hex_digit(bytes[i / 2] as int % 16)
            },
    )
}

/// The digest of `data` as text.
pub open spec fn digest_text(data: Seq<u8>) -> Seq<char> {
    decode_utf8(hex(sha256(data)))
}

/// Whether `text` has the form of a digest: 64 characters, each a lower-case
/// hexadecimal digit.
pub open spec fn is_digest_text(text: Seq<char>) -> bool {
    encode_utf8(text).len() == DIGEST_LEN && is_hex(encode_utf8(text))
}

/// Hexadecimal text is made of hexadecimal digits, which are ASCII.
proof fn lemma_hex_is_hex(bytes: Seq<u8>)
    ensures
        hex(bytes).len() == 2 * bytes.len(),
        is_hex(hex(bytes)),
        is_ascii_bytes(hex(bytes)),
{
    assert forall|i: int| 0 <= i < hex(bytes).len() implies is_hex_digit(#[trigger] hex(bytes)[i])
        && hex(bytes)[i] < 0x80 by {
        let b = bytes[i / 2] as int;
        assert(0 <= b / 16 < 16 && 0 <= b % 16 < 16);
    }
}

fn hex_digit_of(nibble: u8) -> (digit: u8)
    requires
        nibble < 16,
    ensures
        digit == hex_digit(nibble as int),
{
    if nibble < 10 {
        0x30 + nibble
    } else {
        0x57 + nibble
    }
}

/// Writes `bytes` in hexadecimal.
pub fn to_hex(bytes: &[u8]) -> (out: Vec<u8>)
    requires
        2 * bytes@.len() <= usize::MAX,
    ensures
        out@ == hex(bytes@),
{
    let mut out: Vec<u8> = Vec::new();
    let mut i: usize = 0;
    while i < bytes.len()
        invariant
            i <= bytes@.len(),
            out@.len() == 2 * i,
            forall|k: int| 0 <= k < out@.len() ==> out@[k] == hex(bytes@)[k],
        decreases bytes@.len() - i,
    {
        let b: u8 = bytes[i];
        out.push(hex_digit_of(b / 16));
        out.push(hex_digit_of(b % 16));
        i += 1;
    }
    out
}

/// The digest of `data`: its SHA-256 in lower-case hexadecimal.
pub fn file_digest(data: &[u8]) -> (digest: String)
    ensures
        digest@ == digest_text(data@),
        is_digest_text(digest@),
{
    let raw = sha256_raw(data);
    let written = to_hex(raw.as_slice());
    proof {
        lemma_hex_is_hex(raw@);
    }
    string_from_ascii(written)
}

} // verus!
