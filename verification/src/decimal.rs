//! Peer identifiers as they are written in notices: decimal, without sign
//! and without leading zeros.

use vstd::prelude::*;

verus! {

/// Whether `byte` is one of `0`-`9`.
pub open spec fn is_digit(byte: u8) -> bool {
    0x30 <= byte <= 0x39
}

/// The decimal digits of `n`, as ASCII bytes.
pub open spec fn decimal(n: nat) -> Seq<u8>
    decreases n,
{
    if n < 10 {
        seq![(0x30 + n) as u8]
    } else {
        decimal(n / 10).push((0x30 + n % 10) as u8)
    }
}

/// The number that the digits stand for.
pub open spec fn decimal_value(digits: Seq<u8>) -> nat
    decreases digits.len(),
{
    if digits.len() == 0 {
        0
    } else {
        (decimal_value(digits.drop_last()) * 10 + (digits.last() - 0x30)) as nat
    }
}

/// Whether `digits` is the way a number is written: one digit at least, and
/// no leading zero but for zero itself.
pub open spec fn is_decimal(digits: Seq<u8>) -> bool {
    &&& digits.len() >= 1
    &&& forall|i: int| 0 <= i < digits.len() ==> is_digit(#[trigger] digits[i])
    &&& (digits.len() == 1 || digits[0] != 0x30)
}

/// Where the run of digits that starts at `at` ends.
pub open spec fn digits_end(bytes: Seq<u8>, at: int) -> int
    decreases bytes.len() - at,
{
    if 0 <= at < bytes.len() && is_digit(bytes[at]) {
        digits_end(bytes, at + 1)
    } else {
        at
    }
}

/// A number's digits are well written, and stand for the number.
pub proof fn lemma_decimal_value_of_decimal(n: nat)
    ensures
        is_decimal(decimal(n)),
        decimal_value(decimal(n)) == n,
        n > 0 ==> decimal(n)[0] != 0x30,
    decreases n,
{
    if n < 10 {
        assert(decimal_value(decimal(n).drop_last()) == 0);
    } else {
        lemma_decimal_value_of_decimal(n / 10);
        assert(decimal(n).drop_last() =~= decimal(n / 10));
    }
}

/// Well-written digits are the digits of the number they stand for.
pub proof fn lemma_decimal_of_decimal_value(digits: Seq<u8>)
    requires
        is_decimal(digits),
    ensures
        decimal(decimal_value(digits)) == digits,
        digits[0] != 0x30 ==> decimal_value(digits) > 0,
    decreases digits.len(),
{
    if digits.len() == 1 {
        assert(decimal_value(digits.drop_last()) == 0);
    } else {
        let front = digits.drop_last();
        assert(is_decimal(front));
        lemma_decimal_of_decimal_value(front);
        let v = decimal_value(front);
        let d = (digits.last() - 0x30) as nat;
        assert(is_digit(digits[digits.len() - 1]));
        assert(v > 0);
        assert(decimal_value(digits) == v * 10 + d);
        assert((v * 10 + d) / 10 == v && (v * 10 + d) % 10 == d);
    }
}

/// The run of digits before anything that is no digit ends there.
pub proof fn lemma_digits_end(bytes: Seq<u8>, at: int, end: int)
    requires
        0 <= at <= end <= bytes.len(),
        forall|i: int| at <= i < end ==> is_digit(#[trigger] bytes[i]),
        end == bytes.len() || !is_digit(bytes[end]),
    ensures
        digits_end(bytes, at) == end,
    decreases end - at,
{
    if at < end {
        assert(is_digit(bytes[at]));
        lemma_digits_end(bytes, at + 1, end);
    }
}

/// A run of digits holds digits only, and stops at the end or at a byte that
/// is no digit.
pub proof fn lemma_digits_end_is_run(bytes: Seq<u8>, at: int)
    requires
        0 <= at <= bytes.len(),
    ensures
        at <= digits_end(bytes, at) <= bytes.len(),
        forall|i: int| at <= i < digits_end(bytes, at) ==> is_digit(#[trigger] bytes[i]),
        digits_end(bytes, at) == bytes.len() || !is_digit(bytes[digits_end(bytes, at)]),
    decreases bytes.len() - at,
{
    if at < bytes.len() && is_digit(bytes[at]) {
        lemma_digits_end_is_run(bytes, at + 1);
    }
}

/// More digits never stand for less.
pub proof fn lemma_decimal_value_grows(digits: Seq<u8>, k: int)
    requires
        0 <= k <= digits.len(),
        forall|i: int| 0 <= i < digits.len() ==> is_digit(#[trigger] digits[i]),
    ensures
        decimal_value(digits.subrange(0, k)) <= decimal_value(digits),
    decreases digits.len() - k,
{
    if k == digits.len() {
        assert(digits.subrange(0, k) =~= digits);
    } else {
        let front = digits.drop_last();
        assert(front.subrange(0, k) =~= digits.subrange(0, k));
        assert forall|i: int| 0 <= i < front.len() implies is_digit(#[trigger] front[i]) by {
            assert(front[i] == digits[i]);
        }
        lemma_decimal_value_grows(front, k);
        assert(is_digit(digits[digits.len() - 1]));
    }
}

/// Appends the decimal digits of `n` to `out`.
pub fn push_decimal(out: &mut Vec<u8>, n: u64)
    ensures
        final(out)@ == old(out)@ + decimal(n as nat),
    decreases n,
{
    if n >= 10 {
        push_decimal(out, n / 10);
    }
    out.push(0x30 + (n % 10) as u8);
}

/// Reads the number written at `at`: the whole run of digits there.
///
/// Gives the number and the place where the run ends, or nothing where the
/// run is empty, has a leading zero, or stands for more than a `u64` holds.
pub fn parse_decimal(bytes: &[u8], at: usize) -> (parsed: Option<(u64, usize)>)
    requires
        at <= bytes@.len(),
    ensures
        ({
            let end = digits_end(bytes@, at as int);
            let digits = bytes@.subrange(at as int, end);
            match parsed {
                Some((n, stop)) => is_decimal(digits) && decimal_value(digits) == n && stop
                    == end,
                None => !is_decimal(digits) || decimal_value(digits) > u64::MAX,
            }
        }),
{
    let ghost end = digits_end(bytes@, at as int);
    let ghost digits = bytes@.subrange(at as int, end);
    proof {
        lemma_digits_end_is_run(bytes@, at as int);
    }
    let mut i: usize = at;
    let mut n: u64 = 0;
    while i < bytes.len() && 0x30 <= bytes[i] && bytes[i] <= 0x39
        invariant
            at <= i <= end <= bytes@.len(),
            end == digits_end(bytes@, at as int),
            digits == bytes@.subrange(at as int, end),
            forall|k: int| at <= k < end ==> is_digit(#[trigger] bytes@[k]),
            end == bytes@.len() || !is_digit(bytes@[end as int]),
            n == decimal_value(bytes@.subrange(at as int, i as int)),
        decreases bytes@.len() - i,
    {
        let d: u64 = (bytes[i] - 0x30) as u64;
        let ghost front = bytes@.subrange(at as int, i as int);
        let ghost longer = bytes@.subrange(at as int, i + 1);
        proof {
            assert(longer.drop_last() =~= front);
            assert(decimal_value(longer) == n * 10 + d);
            assert(longer =~= digits.subrange(0, i + 1 - at));
            lemma_decimal_value_grows(digits, i + 1 - at);
        }
        let next = match n.checked_mul(10) {
            Some(tens) => tens.checked_add(d),
            None => None,
        };
        match next {
            Some(v) => {
                n = v;
            },
            None => {
                return None;
            },
        }
        i += 1;
    }
    assert(i == end);
    if i == at || (i - at > 1 && bytes[at] == 0x30) {
        return None;
    }
    Some((n, i))
}

} // verus!
