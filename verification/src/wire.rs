//! Unsigned 32-bit integers as four bytes, most significant byte first.

use vstd::prelude::*;

verus! {

/// The four bytes of `n`, most significant first.
pub open spec fn be32(n: u32) -> Seq<u8> {
    seq![
        (n / 0x100_0000) as u8,
        ((n / 0x1_0000) % 0x100) as u8,
        ((n / 0x100) % 0x100) as u8,
        (n % 0x100) as u8,
    ]
}

/// The number that the first four bytes of `bytes` stand for.
pub open spec fn be32_value(bytes: Seq<u8>) -> int
    recommends
        bytes.len() >= 4,
{
    bytes[0] * 0x100_0000 + bytes[1] * 0x1_0000 + bytes[2] * 0x100 + bytes[3]
}

/// Reading back the bytes of a number gives the number.
pub proof fn lemma_be32_value_of_be32(n: u32)
    ensures
        be32(n).len() == 4,
        be32_value(be32(n)) == n,
{
}

/// Four bytes are the bytes of the number they stand for.
pub proof fn lemma_be32_of_be32_value(bytes: Seq<u8>)
    requires
        bytes.len() == 4,
    ensures
        0 <= be32_value(bytes) <= u32::MAX,
        be32(be32_value(bytes) as u32) == bytes,
{
    let b0 = bytes[0] as int;
    let b1 = bytes[1] as int;
    let b2 = bytes[2] as int;
    let b3 = bytes[3] as int;
    let low = b1 * 0x1_0000 + b2 * 0x100 + b3;
    let n = b0 * 0x100_0000 + low;
    assert(0 <= low < 0x100_0000);
    assert(n / 0x100_0000 == b0);
    assert(n / 0x1_0000 == b0 * 0x100 + b1);
    assert(n / 0x100 == b0 * 0x1_0000 + b1 * 0x100 + b2);
    assert((b0 * 0x100 + b1) % 0x100 == b1);
    assert((b0 * 0x1_0000 + b1 * 0x100 + b2) % 0x100 == b2);
    assert(n % 0x100 == b3);
    assert(be32(n as u32) =~= bytes);
}

/// Appends the four bytes of `n` to `out`.
pub fn push_be32(out: &mut Vec<u8>, n: u32)
    ensures
        final(out)@ == old(out)@ + be32(n),
{
    out.push((n / 0x100_0000) as u8);
    out.push(((n / 0x1_0000) % 0x100) as u8);
    out.push(((n / 0x100) % 0x100) as u8);
    out.push((n % 0x100) as u8);
    assert(out@ =~= old(out)@ + be32(n));
}

/// Reads the number that the four bytes from `at` on stand for.
pub fn read_be32(bytes: &[u8], at: usize) -> (n: u32)
    requires
        at + 4 <= bytes@.len(),
    ensures
        n == be32_value(bytes@.subrange(at as int, at + 4)),
{
    let b0: u32 = bytes[at] as u32;
    let b1: u32 = bytes[at + 1] as u32;
    let b2: u32 = bytes[at + 2] as u32;
    let b3: u32 = bytes[at + 3] as u32;
    b0 * 0x100_0000 + b1 * 0x1_0000 + b2 * 0x100 + b3
}

} // verus!
