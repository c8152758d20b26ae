//! The name of the file that a request asks for.
//!
//! A request may spell a path. Only what stands behind the last `/` counts,
//! without the white space around it, so that no request reaches outside the
//! directory that files are served from.

use crate::bytes::copy_range;
use crate::text::string_from_utf8;
use vstd::prelude::*;
use vstd::string::*;
use vstd::utf8::*;

verus! {

/// Whether `byte` is ASCII white space: a blank, or one of the controls from
/// tab to carriage return.
pub open spec fn is_space(byte: u8) -> bool {
    byte == 0x20 || (0x09 <= byte <= 0x0d)
}

/// Where the part behind the last `/` begins: at 0 where there is no `/`.
pub open spec fn name_start(bytes: Seq<u8>) -> int
    decreases bytes.len(),
{
    if bytes.len() == 0 {
        0
    } else if bytes.last() == 0x2f {
        bytes.len() as int
    } else {
        name_start(bytes.drop_last())
    }
}

/// `bytes` without the white space in front.
pub open spec fn trim_start(bytes: Seq<u8>) -> Seq<u8>
    decreases bytes.len(),
{
    if bytes.len() > 0 && is_space(bytes[0]) {
        trim_start(bytes.skip(1))
    } else {
        bytes
    }
}

/// `bytes` without the white space at the end.
pub open spec fn trim_end(bytes: Seq<u8>) -> Seq<u8>
    decreases bytes.len(),
{
    if bytes.len() > 0 && is_space(bytes.last()) {
        trim_end(bytes.drop_last())
    } else {
        bytes
    }
}

/// The bytes of the file name in the bytes of a request.
pub open spec fn name_bytes(request: Seq<u8>) -> Seq<u8> {
    trim_end(trim_start(request.skip(name_start(request))))
}

/// The file name that the text of a request asks for.
pub open spec fn requested_name(request: Seq<char>) -> Seq<char> {
    decode_utf8(name_bytes(encode_utf8(request)))
}

/// What stands behind an ASCII byte of valid UTF-8 is valid UTF-8.
proof fn lemma_utf8_behind_ascii(bytes: Seq<u8>, from: int)
    requires
        valid_utf8(bytes),
        0 <= from <= bytes.len(),
        from > 0 ==> bytes[from - 1] < 0x80,
    ensures
        valid_utf8(bytes.skip(from)),
{
    if from == 0 {
        assert(bytes.skip(0) =~= bytes);
    } else {
        let at = from - 1;
        assert(!is_continuation_byte(bytes[at]));
        is_char_boundary_iff_not_is_continuation_byte(bytes, at);
        valid_utf8_split(bytes, at);
        let tail = bytes.subrange(at, bytes.len() as int);
        assert(tail[0] == bytes[at]);
        assert(is_leading_byte_width_1(tail[0]));
        assert(pop_first_scalar(tail) =~= bytes.skip(from));
    }
}

/// What stands before an ASCII byte of valid UTF-8, or before its end, is
/// valid UTF-8.
proof fn lemma_utf8_before_ascii(bytes: Seq<u8>, to: int)
    requires
        valid_utf8(bytes),
        0 <= to <= bytes.len(),
        to < bytes.len() ==> bytes[to] < 0x80,
    ensures
        valid_utf8(bytes.subrange(0, to)),
{
    if to == bytes.len() {
        assert(bytes.subrange(0, to) =~= bytes);
    } else {
        assert(!is_continuation_byte(bytes[to]));
        is_char_boundary_iff_not_is_continuation_byte(bytes, to);
        valid_utf8_split(bytes, to);
    }
}

fn is_space_byte(byte: u8) -> (yes: bool)
    ensures
        yes == is_space(byte),
{
    byte == 0x20 || (0x09 <= byte && byte <= 0x0d)
}

fn find_name_start(bytes: &[u8]) -> (start: usize)
    ensures
        start == name_start(bytes@),
        start <= bytes@.len(),
        start > 0 ==> bytes@[start - 1] == 0x2f,
{
    let ghost all = bytes@;
    assert(all.take(all.len() as int) =~= all);
    let mut start: usize = bytes.len();
    while start > 0 && bytes[start - 1] != 0x2f
        invariant
            all == bytes@,
            start <= all.len(),
            name_start(all) == name_start(all.take(start as int)),
        decreases start,
    {
        assert(all.take(start as int).drop_last() =~= all.take(start - 1));
        assert(all.take(start as int).last() == all[start - 1]);
        start -= 1;
    }
    if start > 0 {
        assert(all.take(start as int).last() == all[start - 1]);
    }
    start
}

fn find_trimmed_start(bytes: &[u8], start: usize) -> (from: usize)
    requires
        start <= bytes@.len(),
    ensures
        start <= from <= bytes@.len(),
        from > start ==> is_space(bytes@[from - 1]),
        trim_start(bytes@.skip(start as int)) == bytes@.skip(from as int),
{
    let ghost all = bytes@;
    let mut from: usize = start;
    while from < bytes.len() && is_space_byte(bytes[from])
        invariant
            all == bytes@,
            start <= from <= all.len(),
            from > start ==> is_space(all[from - 1]),
            trim_start(all.skip(start as int)) == trim_start(all.skip(from as int)),
        decreases all.len() - from,
    {
        assert(all.skip(from as int)[0] == all[from as int]);
        assert(all.skip(from as int).skip(1) =~= all.skip(from + 1));
        from += 1;
    }
    if from < bytes.len() {
        assert(all.skip(from as int)[0] == all[from as int]);
    }
    from
}

fn find_trimmed_end(bytes: &[u8], from: usize) -> (to: usize)
    requires
        from <= bytes@.len(),
    ensures
        from <= to <= bytes@.len(),
        to < bytes@.len() ==> is_space(bytes@[to as int]),
        trim_end(bytes@.skip(from as int)) == bytes@.subrange(from as int, to as int),
{
    let ghost all = bytes@;
    let mut to: usize = bytes.len();
    while to > from && is_space_byte(bytes[to - 1])
        invariant
            all == bytes@,
            from <= to <= all.len(),
            to < all.len() ==> is_space(all[to as int]),
            trim_end(all.skip(from as int)) == trim_end(all.subrange(from as int, to as int)),
        decreases to,
    {
        assert(all.subrange(from as int, to as int).last() == all[to - 1]);
        assert(all.subrange(from as int, to as int).drop_last() =~= all.subrange(
            from as int,
            to - 1,
        ));
        to -= 1;
    }
    if to > from {
        assert(all.subrange(from as int, to as int).last() == all[to - 1]);
    }
    to
}

/// What stands between two ASCII bytes of valid UTF-8 is valid UTF-8.
proof fn lemma_utf8_between_ascii(bytes: Seq<u8>, from: int, to: int)
    requires
        valid_utf8(bytes),
        0 <= from <= to <= bytes.len(),
        from > 0 ==> bytes[from - 1] < 0x80,
        to < bytes.len() ==> bytes[to] < 0x80,
    ensures
        valid_utf8(bytes.subrange(from, to)),
{
    lemma_utf8_behind_ascii(bytes, from);
    let tail = bytes.skip(from);
    if to < bytes.len() {
        assert(tail[to - from] == bytes[to]);
    }
    lemma_utf8_before_ascii(tail, to - from);
    assert(tail.subrange(0, to - from) =~= bytes.subrange(from, to));
}

/// The name of the file that a request with this text asks for: what stands
/// behind the last `/`, without the ASCII white space around it.
pub fn file_name(request: &String) -> (name: String)
    ensures
        name@ == requested_name(request@),
{
    let bytes = request.as_str().as_bytes();
    let start = find_name_start(bytes);
    let from = find_trimmed_start(bytes, start);
    let to = find_trimmed_end(bytes, from);
    let name = copy_range(bytes, from, to);
    proof {
        encode_utf8_valid_utf8(request@);
        lemma_utf8_between_ascii(bytes@, from as int, to as int);
    }
    match string_from_utf8(name) {
        Some(name) => name,
        None => unreached(),
    }
}

} // verus!
