//! Decimal text for numbers: the explorer's record URLs carry numeric
//! path segments, written and read back as ASCII digits.

use vstd::prelude::*;

verus! {

/// Whether a byte is an ASCII digit.
pub open spec fn is_digit(c: u8) -> bool {
    0x30 <= c <= 0x39
}

/// The decimal digits of a non-negative number, most significant first;
/// empty for zero.
pub open spec fn spec_digits(n: int) -> Seq<u8>
    decreases n,
{
    if n <= 0 {
        Seq::empty()
    } else {
        spec_digits(n / 10).push((0x30 + n % 10) as u8)
    }
}

/// The decimal text of a number: its digits, or the single digit zero.
pub open spec fn spec_decimal(n: u64) -> Seq<u8> {
    if n == 0 {
        seq![0x30u8]
    } else {
        spec_digits(n as int)
    }
}

/// The value of a digit string, most significant first.
pub open spec fn digits_val(s: Seq<u8>) -> int
    decreases s.len(),
{
    if s.len() == 0 {
        0
    } else {
        digits_val(s.drop_last()) * 10 + (s.last() - 0x30)
    }
}

/// What parsing decimal text yields: the value of the digits, or nothing
/// when the text is empty, holds a non-digit, or names a value past
/// `u64::MAX`.
pub open spec fn spec_parse_decimal(s: Seq<u8>) -> Option<u64> {
    if s.len() > 0 && (forall|k: int| 0 <= k < s.len() ==> is_digit(#[trigger] s[k]))
        && digits_val(s) <= u64::MAX {
        Some(digits_val(s) as u64)
    } else {
        None
    }
}

/// A digit string's value is non-negative.
proof fn lemma_digits_val_nonneg(s: Seq<u8>)
    requires
        forall|k: int| 0 <= k < s.len() ==> is_digit(#[trigger] s[k]),
    ensures
        digits_val(s) >= 0,
    decreases s.len(),
{
    if s.len() > 0 {
        lemma_digits_val_nonneg(s.drop_last());
    }
}

/// A digit string's value is at least the value of any of its prefixes.
proof fn lemma_digits_val_grows(s: Seq<u8>, i: int)
    requires
        0 <= i <= s.len(),
        forall|k: int| 0 <= k < s.len() ==> is_digit(#[trigger] s[k]),
    ensures
        digits_val(s) >= digits_val(s.take(i)),
    decreases s.len() - i,
{
    if i < s.len() {
        assert(s.take(i + 1).drop_last() =~= s.take(i));
        assert(s.take(i + 1).last() == s[i]);
        lemma_digits_val_nonneg(s.take(i));
        lemma_digits_val_grows(s, i + 1);
    } else {
        assert(s.take(i) =~= s);
    }
}

/// Formats a number in decimal, most significant digit first.
pub fn to_str_bytes(number: u64) -> (r: Vec<u8>)
    ensures
        r@ == spec_decimal(number),
{
    if number == 0 {
        let mut out: Vec<u8> = Vec::new();
        out.push(0x30);
        proof {
            assert(out@ =~= spec_decimal(0));
        }
        return out;
    }
    let mut rev: Vec<u8> = Vec::new();
    let mut n: u64 = number;
    while n > 0
        invariant
            spec_digits(number as int) == spec_digits(n as int) + rev@.reverse(),
        decreases n,
    {
        let ghost r0 = rev@;
        let d: u8 = 0x30 + (n % 10) as u8;
        rev.push(d);
        proof {
            assert(spec_digits(n as int / 10) + rev@.reverse() =~= spec_digits(n as int)
                + r0.reverse());
        }
        n = n / 10;
    }
    proof {
        assert(spec_digits(number as int) =~= rev@.reverse());
    }
    let mut out: Vec<u8> = Vec::new();
    let mut i: usize = rev.len();
    while i > 0
        invariant
            i <= rev@.len(),
            out@ == rev@.reverse().take((rev@.len() - i) as int),
        decreases i,
    {
        i = i - 1;
        out.push(rev[i]);
        proof {
            assert(out@ =~= rev@.reverse().take((rev@.len() - i) as int));
        }
    }
    proof {
        assert(rev@.reverse().take(rev@.len() as int) =~= rev@.reverse());
    }
    out
}

/// Parses decimal text into a number.
pub fn parse_decimal(s: &[u8]) -> (r: Option<u64>)
    ensures
        r == spec_parse_decimal(s@),
{
    let n = s.len();
    if n == 0 {
        return None;
    }
    let mut acc: u64 = 0;
    let mut i: usize = 0;
    while i < n
        invariant
            n == s@.len(),
            0 <= i <= n,
            forall|k: int| 0 <= k < i ==> is_digit(#[trigger] s@[k]),
            acc == digits_val(s@.take(i as int)),
        decreases n - i,
    {
        let c = s[i];
        if c < 0x30 || c > 0x39 {
            return None;
        }
        let d: u64 = (c - 0x30) as u64;
        proof {
            assert(s@.take(i + 1).drop_last() =~= s@.take(i as int));
            assert(s@.take(i + 1).last() == s@[i as int]);
            lemma_digits_val_nonneg(s@.take(i as int));
        }
        if acc > (u64::MAX - d) / 10 {
            // the value is already past the range; if the rest is all
            // digits the whole string's value is larger still
            proof {
                assert(digits_val(s@.take(i + 1)) > u64::MAX) by (nonlinear_arith)
                    requires
                        digits_val(s@.take(i + 1)) == acc * 10 + d,
                        acc > (u64::MAX - d) / 10,
                        0 <= d <= 9,
                        acc >= 0,
                        u64::MAX == 0xffff_ffff_ffff_ffff,
                ;
                if forall|k: int| 0 <= k < s@.len() ==> is_digit(#[trigger] s@[k]) {
                    lemma_digits_val_grows(s@, i + 1);
                }
            }
            return None;
        }
        proof {
            assert(acc * 10 + d <= u64::MAX) by (nonlinear_arith)
                requires
                    acc <= (u64::MAX - d) / 10,
                    0 <= d <= 9,
                    acc >= 0,
                    u64::MAX == 0xffff_ffff_ffff_ffff,
            ;
        }
        acc = acc * 10 + d;
        i = i + 1;
    }
    proof {
        assert(s@.take(n as int) =~= s@);
    }
    Some(acc)
}

/// All the bytes of a number's digit string are digits.
proof fn lemma_spec_digits_are_digits(n: int)
    requires
        n >= 0,
    ensures
        forall|k: int| 0 <= k < spec_digits(n).len() ==> is_digit(#[trigger] spec_digits(n)[k]),
    decreases n,
{
    if n > 0 {
        lemma_spec_digits_are_digits(n / 10);
        assert forall|k: int| 0 <= k < spec_digits(n).len() implies is_digit(
            #[trigger] spec_digits(n)[k],
        ) by {
            if k < spec_digits(n).len() - 1 {
                assert(spec_digits(n)[k] == spec_digits(n / 10)[k]);
            }
        }
    }
}

/// A number's digit string reads back as the number.
proof fn lemma_spec_digits_value(n: int)
    requires
        n >= 0,
    ensures
        digits_val(spec_digits(n)) == n,
    decreases n,
{
    if n > 0 {
        lemma_spec_digits_value(n / 10);
        assert(spec_digits(n).drop_last() =~= spec_digits(n / 10));
    }
}

/// The round trip: formatting a number in decimal and parsing it back
/// yields the number, for every 64-bit value.
pub proof fn lemma_decimal_round_trip(n: u64)
    ensures
        spec_parse_decimal(spec_decimal(n)) == Some(n),
{
    if n == 0 {
        assert(spec_decimal(0).drop_last() =~= Seq::<u8>::empty());
        assert(digits_val(Seq::<u8>::empty()) == 0);
        assert(digits_val(spec_decimal(0)) == 0);
    } else {
        lemma_spec_digits_are_digits(n as int);
        lemma_spec_digits_value(n as int);
        assert(spec_digits(n as int) == spec_digits(n as int / 10).push(
            (0x30 + n as int % 10) as u8,
        ));
        assert(spec_digits(n as int).len() > 0);
    }
}

} // verus!
