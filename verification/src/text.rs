//! Text as it travels: the UTF-8 bytes of a string, and back.

use vstd::prelude::*;
use vstd::utf8::*;

verus! {

/// The text that `bytes` spell, where they are valid UTF-8.
///
/// This is std's `String::from_utf8`. Its contract is taken on trust: the
/// call succeeds exactly on valid UTF-8, and the string it gives back holds
/// the characters that the bytes encode.
#[verifier::external_body]
pub(crate) fn string_from_utf8(bytes: Vec<u8>) -> (text: Option<String>)
    ensures
        text is Some <==> valid_utf8(bytes@),
        text matches Some(s) ==> s@ == decode_utf8(bytes@),
{
    String::from_utf8(bytes).ok()
}

/// Whether every byte is below 128.
pub open spec fn is_ascii_bytes(bytes: Seq<u8>) -> bool {
    forall|i: int| 0 <= i < bytes.len() ==> #[trigger] bytes[i] < 0x80
}

/// Bytes below 128 are valid UTF-8.
pub proof fn lemma_ascii_is_utf8(bytes: Seq<u8>)
    requires
        is_ascii_bytes(bytes),
    ensures
        valid_utf8(bytes),
{
    assert(partial_valid_utf8(bytes, 0));
    assert forall|i: int| 0 <= i < bytes.len() implies #[trigger] is_leading_byte_width_1(
        bytes[i],
    ) by {
        assert(bytes[i] < 0x80);
    }
    partial_valid_utf8_extend_ascii_block(bytes, 0, bytes.len() as int);
    assert(bytes.subrange(0, bytes.len() as int) =~= bytes);
}

/// The text that the ASCII bytes `bytes` spell, as a string.
pub fn string_from_ascii(bytes: Vec<u8>) -> (text: String)
    requires
        is_ascii_bytes(bytes@),
    ensures
        encode_utf8(text@) == bytes@,
        text@ == decode_utf8(bytes@),
{
    proof {
        lemma_ascii_is_utf8(bytes@);
        decode_utf8_encode_utf8(bytes@);
    }
    match string_from_utf8(bytes) {
        Some(text) => text,
        None => unreached(),
    }
}

} // verus!
