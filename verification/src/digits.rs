//! Decimal numerals over ASCII bytes: rendering an integer as its digit
//! string, reading one back, and the facts that tie the two together.

use vstd::prelude::*;

verus! {

/// Whether a byte is an ASCII decimal digit.
pub open spec fn is_digit(b: u8) -> bool {
    48 <= b <= 57
}

/// The decimal numeral of a non-negative integer, most significant digit
/// first, with no leading zeros (`0` itself is the single byte `"0"`).
pub open spec fn dec_digits(n: int) -> Seq<u8>
    recommends
        n >= 0,
    decreases n,
{
    if n < 10 {
        seq![(48 + n) as u8]
    } else {
        dec_digits(n / 10).push((48 + n % 10) as u8)
    }
}

/// The value of a string of decimal digits, most significant first.
pub open spec fn int_of_digits(ds: Seq<u8>) -> int
    decreases ds.len(),
{
    if ds.len() == 0 {
        0
    } else {
        int_of_digits(ds.drop_last()) * 10 + (ds.last() - 48)
    }
}

/// A rendered numeral is non-empty, consists of digits, and reads back as
/// the number it was rendered from.
pub proof fn lemma_dec_digits_valid(n: int)
    requires
        n >= 0,
    ensures
        dec_digits(n).len() >= 1,
        forall|i: int| 0 <= i < dec_digits(n).len() ==> is_digit(#[trigger] dec_digits(n)[i]),
        int_of_digits(dec_digits(n)) == n,
    decreases n,
{
    if n < 10 {
        assert(dec_digits(n) == seq![(48 + n) as u8]);
        assert((48 + n) as u8 == 48 + n);
        assert(dec_digits(n).drop_last() =~= Seq::<u8>::empty());
        assert(int_of_digits(dec_digits(n).drop_last()) == 0);
        assert(dec_digits(n).last() == (48 + n) as u8);
        assert(int_of_digits(dec_digits(n)) == int_of_digits(dec_digits(n).drop_last()) * 10 + (
        dec_digits(n).last() - 48));
    } else {
        lemma_dec_digits_valid(n / 10);
        assert(dec_digits(n).drop_last() =~= dec_digits(n / 10));
        assert(dec_digits(n).last() == (48 + n % 10) as u8);
        assert(int_of_digits(dec_digits(n)) == n / 10 * 10 + n % 10);
    }
}

/// A digit string has a non-negative value.
pub proof fn lemma_int_of_digits_nonneg(ds: Seq<u8>)
    requires
        forall|i: int| 0 <= i < ds.len() ==> is_digit(#[trigger] ds[i]),
    ensures
        int_of_digits(ds) >= 0,
    decreases ds.len(),
{
    if ds.len() > 0 {
        assert(forall|i: int|
            0 <= i < ds.drop_last().len() ==> is_digit(#[trigger] ds.drop_last()[i]));
        lemma_int_of_digits_nonneg(ds.drop_last());
    }
}

/// Reading only a prefix of a digit string never yields a larger value.
pub proof fn lemma_int_of_digits_prefix_le(ds: Seq<u8>, m: int)
    requires
        0 <= m <= ds.len(),
        forall|i: int| 0 <= i < ds.len() ==> is_digit(#[trigger] ds[i]),
    ensures
        int_of_digits(ds.take(m)) <= int_of_digits(ds),
    decreases ds.len(),
{
    if m == ds.len() {
        assert(ds.take(m) =~= ds);
    } else {
        assert(forall|i: int|
            0 <= i < ds.drop_last().len() ==> is_digit(#[trigger] ds.drop_last()[i]));
        lemma_int_of_digits_prefix_le(ds.drop_last(), m);
        assert(ds.drop_last().take(m) =~= ds.take(m));
        lemma_int_of_digits_nonneg(ds.drop_last());
        assert(int_of_digits(ds) == int_of_digits(ds.drop_last()) * 10 + (ds.last() - 48));
        assert(int_of_digits(ds.drop_last()) * 10 >= int_of_digits(ds.drop_last()));
        assert(is_digit(ds[ds.len() - 1]));
    }
}

/// The first position at or after `i` that does not hold a digit.
pub open spec fn digit_run_end(s: Seq<u8>, i: int) -> int
    recommends
        0 <= i <= s.len(),
    decreases s.len() - i,
{
    if i < s.len() && is_digit(s[i]) {
        digit_run_end(s, i + 1)
    } else {
        i
    }
}

/// Everything before the end of a digit run is a digit, and the byte at
/// the end, when there is one, is not.
pub proof fn lemma_digit_run(s: Seq<u8>, i: int)
    requires
        0 <= i <= s.len(),
    ensures
        i <= digit_run_end(s, i) <= s.len(),
        forall|t: int| i <= t < digit_run_end(s, i) ==> is_digit(#[trigger] s[t]),
        digit_run_end(s, i) < s.len() ==> !is_digit(s[digit_run_end(s, i)]),
    decreases s.len() - i,
{
    if i < s.len() && is_digit(s[i]) {
        lemma_digit_run(s, i + 1);
    }
}

/// A digit run ends exactly where the digits stop.
pub proof fn lemma_digit_run_end_is(s: Seq<u8>, i: int, e: int)
    requires
        0 <= i <= e <= s.len(),
        forall|t: int| i <= t < e ==> is_digit(#[trigger] s[t]),
        e < s.len() ==> !is_digit(s[e]),
    ensures
        digit_run_end(s, i) == e,
    decreases e - i,
{
    if i < e {
        lemma_digit_run_end_is(s, i + 1, e);
    }
}

/// Whether a byte is an ASCII decimal digit.
pub fn is_digit_byte(b: u8) -> (r: bool)
    ensures
        r == is_digit(b),
{
    b >= 48 && b <= 57
}

/// Renders `n` as its decimal numeral.
pub fn u64_to_digits(n: u64) -> (v: Vec<u8>)
    ensures
        v@ == dec_digits(n as int),
    decreases n,
{
    if n < 10 {
        let mut v: Vec<u8> = Vec::new();
        v.push(48 + (n as u8));
        proof {
            assert(v@ =~= dec_digits(n as int));
        }
        v
    } else {
        let mut v = u64_to_digits(n / 10);
        v.push(48 + ((n % 10) as u8));
        v
    }
}

} // verus!
