//! Tunable settings for the mistake monitor.
//!
//! The threshold is held in thousandths, so that `350` stands for the rate
//! `0.35`; every value a config may hold is a plain integer or a `bool`, and
//! the whole record can be reasoned about exactly.

use vstd::prelude::*;

use crate::digits::{
    dec_digits, digit_run_end, int_of_digits, is_digit, is_digit_byte, lemma_dec_digits_valid,
    lemma_digit_run, lemma_digit_run_end_is, lemma_int_of_digits_prefix_le, u64_to_digits,
};

verus! {

/// The label that opens the stored record.
pub open spec fn lit_threshold_key() -> Seq<u8> {
    seq![116, 104, 114, 101, 115, 104, 111, 108, 100, 32, 61, 32]
}

/// The label of the window-size line, with the newline that ends the line before it.
pub open spec fn lit_count_key() -> Seq<u8> {
    seq![10, 99, 111, 117, 110, 116, 32, 61, 32]
}

/// The label of the interval line, with the newline that ends the line before it.
pub open spec fn lit_interval_key() -> Seq<u8> {
    seq![10, 105, 110, 116, 101, 114, 118, 97, 108, 32, 61, 32]
}

/// The label of the arrow-policy line, with the newline that ends the line before it.
pub open spec fn lit_afterallow_key() -> Seq<u8> {
    seq![10, 97, 102, 116, 101, 114, 97, 108, 108, 111, 119, 32, 61, 32]
}

/// The decimal point of the threshold value.
pub open spec fn lit_dot() -> Seq<u8> {
    seq![46]
}

/// The newline that ends the record.
pub open spec fn lit_newline() -> Seq<u8> {
    seq![10]
}

/// The word for an enabled arrow policy.
pub open spec fn lit_true() -> Seq<u8> {
    seq![116, 114, 117, 101]
}

/// The word for a disabled arrow policy.
pub open spec fn lit_false() -> Seq<u8> {
    seq![102, 97, 108, 115, 101]
}

/// Three digits, zero padded: the fractional part of the threshold.
pub open spec fn pad3(n: int) -> Seq<u8> {
    seq![(48 + n / 100) as u8, (48 + (n / 10) % 10) as u8, (48 + n % 10) as u8]
}

/// The threshold in thousandths rendered as a decimal fraction with three
/// places: `350` becomes `0.350`, `1000` becomes `1.000`.
pub open spec fn encode_threshold(t: int) -> Seq<u8> {
    dec_digits(t / 1000) + lit_dot() + pad3(t % 1000)
}

/// The stored form of a config: one `name = value` line per field, in a
/// fixed order, ending with a newline.
pub open spec fn encode_spec(c: MisstypeConfig) -> Seq<u8> {
    lit_threshold_key() + encode_threshold(c.threshold() as int) + lit_count_key() + dec_digits(
        c.count() as int,
    ) + lit_interval_key() + dec_digits(c.interval() as int) + lit_afterallow_key() + (
    if c.afterallow() {
        lit_true()
    } else {
        lit_false()
    }) + lit_newline()
}

/// Consumes `lit` at position `i`, yielding the position after it.
pub open spec fn parse_lit(s: Seq<u8>, i: int, lit: Seq<u8>) -> Option<int> {
    if 0 <= i && i + lit.len() <= s.len() && s.subrange(i, i + lit.len()) == lit {
        Some(i + lit.len())
    } else {
        None
    }
}

/// Consumes a non-empty run of digits whose value fits a 64-bit word,
/// yielding the value and the position after the run.
pub open spec fn parse_u64(s: Seq<u8>, i: int) -> Option<(int, int)> {
    let e = digit_run_end(s, i);
    if e == i {
        None
    } else if int_of_digits(s.subrange(i, e)) > u64::MAX {
        None
    } else {
        Some((int_of_digits(s.subrange(i, e)), e))
    }
}

/// Consumes exactly three digits: the fractional part of the threshold,
/// in thousandths.
pub open spec fn parse_frac3(s: Seq<u8>, i: int) -> Option<(int, int)> {
    if 0 <= i && i + 3 <= s.len() && is_digit(s[i]) && is_digit(s[i + 1]) && is_digit(s[i + 2]) {
        Some((100 * (s[i] - 48) + 10 * (s[i + 1] - 48) + (s[i + 2] - 48), i + 3))
    } else {
        None
    }
}

/// Consumes the word `true` or the word `false`.
pub open spec fn parse_bool(s: Seq<u8>, i: int) -> Option<(bool, int)> {
    match parse_lit(s, i, lit_true()) {
        Some(e) => Some((true, e)),
        None => match parse_lit(s, i, lit_false()) {
            Some(e) => Some((false, e)),
            None => None,
        },
    }
}

/// Reads the threshold value `whole.frac` at position `i`: the whole part,
/// a dot, three fractional digits, together at most `1.000`. Yields the
/// threshold in thousandths and the position after it.
pub open spec fn parse_threshold(s: Seq<u8>, i: int) -> Option<(int, int)> {
    match parse_u64(s, i) {
        None => None,
        Some((whole, j)) => match parse_lit(s, j, lit_dot()) {
            None => None,
            Some(j2) => match parse_frac3(s, j2) {
                None => None,
                Some((frac, j3)) => if whole * 1000 + frac > 1000 {
                    None
                } else {
                    Some((whole * 1000 + frac, j3))
                },
            },
        },
    }
}

/// The rest of a record from the window-size line on, with the threshold
/// already read.
pub open spec fn decode_count_on(s: Seq<u8>, i: int, t: int) -> Option<MisstypeConfig> {
    match parse_lit(s, i, lit_count_key()) {
        None => None,
        Some(j) => match parse_u64(s, j) {
            None => None,
            Some((cnt, j2)) => if cnt < 1 || cnt > usize::MAX {
                None
            } else {
                decode_interval_on(s, j2, t, cnt)
            },
        },
    }
}

/// The rest of a record from the interval line on.
pub open spec fn decode_interval_on(s: Seq<u8>, i: int, t: int, cnt: int) -> Option<
    MisstypeConfig,
> {
    match parse_lit(s, i, lit_interval_key()) {
        None => None,
        Some(j) => match parse_u64(s, j) {
            None => None,
            Some((iv, j2)) => if iv < 1 {
                None
            } else {
                decode_afterallow_on(s, j2, t, cnt, iv)
            },
        },
    }
}

/// The rest of a record from the arrow-policy line on.
pub open spec fn decode_afterallow_on(s: Seq<u8>, i: int, t: int, cnt: int, iv: int) -> Option<
    MisstypeConfig,
> {
    match parse_lit(s, i, lit_afterallow_key()) {
        None => None,
        Some(j) => match parse_bool(s, j) {
            None => None,
            Some((aa, j2)) => match parse_lit(s, j2, lit_newline()) {
                None => None,
                Some(j3) => if j3 == s.len() {
                    Some(
                        MisstypeConfig {
                            threshold: t as u32,
                            count: cnt as usize,
                            interval: iv as u64,
                            afterallow: aa,
                        },
                    )
                } else {
                    None
                },
            },
        },
    }
}

/// Reads a stored record back: the four `name = value` lines in their
/// fixed order, a threshold between `0.000` and `1.000`, a positive window
/// size that fits the machine, a positive interval, the word `true` or
/// `false`, and nothing after the final newline.
pub open spec fn decode_spec(s: Seq<u8>) -> Option<MisstypeConfig> {
    match parse_lit(s, 0, lit_threshold_key()) {
        None => None,
        Some(i) => match parse_threshold(s, i) {
            None => None,
            Some((t, j)) => decode_count_on(s, j, t),
        },
    }
}

fn lit_threshold_key_vec() -> (v: Vec<u8>)
    ensures
        v@ == lit_threshold_key(),
{
    let mut v: Vec<u8> = Vec::new();
    v.push(116);
    v.push(104);
    v.push(114);
    v.push(101);
    v.push(115);
    v.push(104);
    v.push(111);
    v.push(108);
    v.push(100);
    v.push(32);
    v.push(61);
    v.push(32);
    proof {
        assert(v@ =~= lit_threshold_key());
    }
    v
}

fn lit_count_key_vec() -> (v: Vec<u8>)
    ensures
        v@ == lit_count_key(),
{
    let mut v: Vec<u8> = Vec::new();
    v.push(10);
    v.push(99);
    v.push(111);
    v.push(117);
    v.push(110);
    v.push(116);
    v.push(32);
    v.push(61);
    v.push(32);
    proof {
        assert(v@ =~= lit_count_key());
    }
    v
}

fn lit_interval_key_vec() -> (v: Vec<u8>)
    ensures
        v@ == lit_interval_key(),
{
    let mut v: Vec<u8> = Vec::new();
    v.push(10);
    v.push(105);
    v.push(110);
    v.push(116);
    v.push(101);
    v.push(114);
    v.push(118);
    v.push(97);
    v.push(108);
    v.push(32);
    v.push(61);
    v.push(32);
    proof {
        assert(v@ =~= lit_interval_key());
    }
    v
}

fn lit_afterallow_key_vec() -> (v: Vec<u8>)
    ensures
        v@ == lit_afterallow_key(),
{
    let mut v: Vec<u8> = Vec::new();
    v.push(10);
    v.push(97);
    v.push(102);
    v.push(116);
    v.push(101);
    v.push(114);
    v.push(97);
    v.push(108);
    v.push(108);
    v.push(111);
    v.push(119);
    v.push(32);
    v.push(61);
    v.push(32);
    proof {
        assert(v@ =~= lit_afterallow_key());
    }
    v
}

fn lit_true_vec() -> (v: Vec<u8>)
    ensures
        v@ == lit_true(),
{
    let mut v: Vec<u8> = Vec::new();
    v.push(116);
    v.push(114);
    v.push(117);
    v.push(101);
    proof {
        assert(v@ =~= lit_true());
    }
    v
}

fn lit_false_vec() -> (v: Vec<u8>)
    ensures
        v@ == lit_false(),
{
    let mut v: Vec<u8> = Vec::new();
    v.push(102);
    v.push(97);
    v.push(108);
    v.push(115);
    v.push(101);
    proof {
        assert(v@ =~= lit_false());
    }
    v
}

fn push_pad3(out: &mut Vec<u8>, n: u32)
    requires
        n < 1000,
    ensures
        final(out)@ == old(out)@ + pad3(n as int),
{
    out.push(48 + (n / 100) as u8);
    out.push(48 + ((n / 10) % 10) as u8);
    out.push(48 + (n % 10) as u8);
    proof {
        assert(out@ =~= old(out)@ + pad3(n as int));
    }
}

fn lit_dot_vec() -> (v: Vec<u8>)
    ensures
        v@ == lit_dot(),
{
    let mut v: Vec<u8> = Vec::new();
    v.push(46);
    proof {
        assert(v@ =~= lit_dot());
    }
    v
}

fn lit_newline_vec() -> (v: Vec<u8>)
    ensures
        v@ == lit_newline(),
{
    let mut v: Vec<u8> = Vec::new();
    v.push(10);
    proof {
        assert(v@ =~= lit_newline());
    }
    v
}

fn eat(s: &[u8], i: usize, lit: &Vec<u8>) -> (r: Option<usize>)
    ensures
        match r {
            Some(j) => parse_lit(s@, i as int, lit@) == Some(j as int) && j <= s@.len(),
            None => parse_lit(s@, i as int, lit@) is None,
        },
{
    let n = s.len();
    if i > n || lit.len() > n - i {
        return None;
    }
    let mut j: usize = 0;
    while j < lit.len()
        invariant
            n == s@.len(),
            i + lit@.len() <= n,
            j <= lit@.len(),
            forall|t: int| 0 <= t < j ==> s@[i + t] == lit@[t],
        decreases lit@.len() - j,
    {
        if s[i + j] != lit[j] {
            proof {
                assert(s@.subrange(i as int, i + lit@.len())[j as int] != lit@[j as int]);
            }
            return None;
        }
        j = j + 1;
    }
    proof {
        assert(s@.subrange(i as int, i + lit@.len()) =~= lit@);
    }
    Some(i + lit.len())
}

fn scan_u64(s: &[u8], i: usize) -> (r: Option<(u64, usize)>)
    requires
        i <= s@.len(),
    ensures
        match r {
            Some(p) => parse_u64(s@, i as int) == Some((p.0 as int, p.1 as int)) && p.1 <= s@.len(),
            None => parse_u64(s@, i as int) is None,
        },
{
    let mut j: usize = i;
    let mut val: u128 = 0;
    while j < s.len() && is_digit_byte(s[j])
        invariant
            i <= j <= s@.len(),
            forall|t: int| i <= t < j ==> is_digit(#[trigger] s@[t]),
            val <= u64::MAX,
            val == int_of_digits(s@.subrange(i as int, j as int)),
        decreases s@.len() - j,
    {
        let d = s[j] - 48;
        let newval = val * 10 + (d as u128);
        proof {
            assert(s@.subrange(i as int, j + 1).drop_last() =~= s@.subrange(i as int, j as int));
            assert(s@.subrange(i as int, j + 1).last() == s@[j as int]);
        }
        if newval > 0xFFFF_FFFF_FFFF_FFFF {
            proof {
                lemma_digit_run(s@, i as int);
                let e = digit_run_end(s@, i as int);
                assert(e > j) by {
                    if e <= j {
                        assert(is_digit(s@[e]));
                    }
                }
                assert(s@.subrange(i as int, e).take(j + 1 - i) =~= s@.subrange(i as int, j + 1));
                assert(forall|t: int|
                    0 <= t < e - i ==> is_digit(#[trigger] s@.subrange(i as int, e)[t]));
                lemma_int_of_digits_prefix_le(s@.subrange(i as int, e), j + 1 - i);
            }
            return None;
        }
        val = newval;
        j = j + 1;
    }
    proof {
        lemma_digit_run_end_is(s@, i as int, j as int);
    }
    if j == i {
        return None;
    }
    Some((val as u64, j))
}

fn scan_frac3(s: &[u8], i: usize) -> (r: Option<(u32, usize)>)
    requires
        i <= s@.len(),
    ensures
        match r {
            Some(p) => parse_frac3(s@, i as int) == Some((p.0 as int, p.1 as int)) && p.0 < 1000
                && p.1 <= s@.len(),
            None => parse_frac3(s@, i as int) is None,
        },
{
    if s.len() - i < 3 {
        return None;
    }
    let b0 = s[i];
    let b1 = s[i + 1];
    let b2 = s[i + 2];
    if is_digit_byte(b0) && is_digit_byte(b1) && is_digit_byte(b2) {
        let v: u32 = 100 * ((b0 - 48) as u32) + 10 * ((b1 - 48) as u32) + ((b2 - 48) as u32);
        Some((v, i + 3))
    } else {
        None
    }
}

/// The tunables of the monitor: alert threshold (in thousandths of the
/// window size), window size, polling interval in seconds, and whether a
/// backspace right after an arrow key counts as a correction.
#[derive(Clone, Copy, Debug, PartialEq, Eq, Structural)]
pub struct MisstypeConfig {
    pub threshold: u32,
    pub count: usize,
    pub interval: u64,
    pub afterallow: bool,
}

impl MisstypeConfig {
    /// The alert threshold, in thousandths: `0 ..= 1000` stands for `0.0 ..= 1.0`.
    pub open spec fn threshold(&self) -> u32 {
        self.threshold
    }

    /// The window size: how many recent keys the history may hold.
    pub open spec fn count(&self) -> usize {
        self.count
    }

    /// The monitor's polling interval, in seconds.
    pub open spec fn interval(&self) -> u64 {
        self.interval
    }

    /// Whether a backspace whose predecessor is an arrow key counts as a correction.
    pub open spec fn afterallow(&self) -> bool {
        self.afterallow
    }

    /// A valid config: the threshold is a rate in `[0, 1]`, the window size
    /// and the interval are positive.
    pub open spec fn wf(&self) -> bool {
        &&& self.threshold() <= 1000
        &&& self.count() >= 1
        &&& self.interval() >= 1
    }

    pub fn new(threshold: u32, count: usize, interval: u64, afterallow: bool) -> (c: Self)
        requires
            threshold <= 1000,
            count >= 1,
            interval >= 1,
        ensures
            c.wf(),
            c.threshold() == threshold,
            c.count() == count,
            c.interval() == interval,
            c.afterallow() == afterallow,
    {
        MisstypeConfig { threshold, count, interval, afterallow }
    }

    /// Renders the config in its stored form; writing the bytes out is the
    /// caller's concern. The in-memory value stays authoritative whether or
    /// not the caller manages to store them.
    pub fn save(&self) -> (out: Vec<u8>)
        requires
            self.wf(),
        ensures
            out@ == encode_spec(*self),
    {
        let mut out: Vec<u8> = Vec::new();
        let mut piece = lit_threshold_key_vec();
        out.append(&mut piece);
        let mut piece = u64_to_digits((self.threshold / 1000) as u64);
        out.append(&mut piece);
        out.push(46);
        push_pad3(&mut out, self.threshold % 1000);
        let mut piece = lit_count_key_vec();
        out.append(&mut piece);
        let mut piece = u64_to_digits(self.count as u64);
        out.append(&mut piece);
        let mut piece = lit_interval_key_vec();
        out.append(&mut piece);
        let mut piece = u64_to_digits(self.interval);
        out.append(&mut piece);
        let mut piece = lit_afterallow_key_vec();
        out.append(&mut piece);
        let mut piece = if self.afterallow {
            lit_true_vec()
        } else {
            lit_false_vec()
        };
        out.append(&mut piece);
        out.push(10);
        proof {
            assert(out@ =~= encode_spec(*self));
        }
        out
    }

    /// Reads a stored record back into a config. `None` when the bytes do
    /// not hold a well-formed record; the caller then falls back to the
    /// defaults.
    pub fn load(s: &[u8]) -> (r: Option<MisstypeConfig>)
        ensures
            r == decode_spec(s@),
            r matches Some(c) ==> c.wf(),
    {
        let key = lit_threshold_key_vec();
        let i = match eat(s, 0, &key) {
            Some(j) => j,
            None => {
                return None;
            },
        };
        let (whole, i) = match scan_u64(s, i) {
            Some(p) => p,
            None => {
                return None;
            },
        };
        let dot = lit_dot_vec();
        let i = match eat(s, i, &dot) {
            Some(j) => j,
            None => {
                return None;
            },
        };
        let (frac, i) = match scan_frac3(s, i) {
            Some(p) => p,
            None => {
                return None;
            },
        };
        let t128: u128 = (whole as u128) * 1000 + (frac as u128);
        if t128 > 1000 {
            return None;
        }
        let t = t128 as u32;
        let key = lit_count_key_vec();
        let i = match eat(s, i, &key) {
            Some(j) => j,
            None => {
                return None;
            },
        };
        let (cnt, i) = match scan_u64(s, i) {
            Some(p) => p,
            None => {
                return None;
            },
        };
        if cnt < 1 || cnt > usize::MAX as u64 {
            return None;
        }
        let key = lit_interval_key_vec();
        let i = match eat(s, i, &key) {
            Some(j) => j,
            None => {
                return None;
            },
        };
        let (iv, i) = match scan_u64(s, i) {
            Some(p) => p,
            None => {
                return None;
            },
        };
        if iv < 1 {
            return None;
        }
        let key = lit_afterallow_key_vec();
        let i = match eat(s, i, &key) {
            Some(j) => j,
            None => {
                return None;
            },
        };
        let word = lit_true_vec();
        let (aa, i) = match eat(s, i, &word) {
            Some(j) => (true, j),
            None => {
                let word = lit_false_vec();
                match eat(s, i, &word) {
                    Some(j) => (false, j),
                    None => {
                        return None;
                    },
                }
            },
        };
        let nl = lit_newline_vec();
        let i = match eat(s, i, &nl) {
            Some(j) => j,
            None => {
                return None;
            },
        };
        if i != s.len() {
            return None;
        }
        Some(
            MisstypeConfig {
                threshold: t,
                count: cnt as usize,
                interval: iv,
                afterallow: aa,
            },
        )
    }

    pub fn get_threshold(&self) -> (v: u32)
        ensures
            v == self.threshold(),
    {
        self.threshold
    }

    pub fn set_threshold(&mut self, value: u32)
        requires
            value <= 1000,
        ensures
            final(self).threshold() == value,
            final(self).count() == old(self).count(),
            final(self).interval() == old(self).interval(),
            final(self).afterallow() == old(self).afterallow(),
            old(self).wf() ==> final(self).wf(),
    {
        self.threshold = value;
    }

    pub fn get_count(&self) -> (v: usize)
        ensures
            v == self.count(),
    {
        self.count
    }

    pub fn set_count(&mut self, value: usize)
        requires
            value >= 1,
        ensures
            final(self).count() == value,
            final(self).threshold() == old(self).threshold(),
            final(self).interval() == old(self).interval(),
            final(self).afterallow() == old(self).afterallow(),
            old(self).wf() ==> final(self).wf(),
    {
        self.count = value;
    }

    pub fn get_interval(&self) -> (v: u64)
        ensures
            v == self.interval(),
    {
        self.interval
    }

    pub fn set_interval(&mut self, value: u64)
        requires
            value >= 1,
        ensures
            final(self).interval() == value,
            final(self).threshold() == old(self).threshold(),
            final(self).count() == old(self).count(),
            final(self).afterallow() == old(self).afterallow(),
            old(self).wf() ==> final(self).wf(),
    {
        self.interval = value;
    }

    pub fn get_afterallow(&self) -> (v: bool)
        ensures
            v == self.afterallow(),
    {
        self.afterallow
    }

    pub fn set_afterallow(&mut self, value: bool)
        ensures
            final(self).afterallow() == value,
            final(self).threshold() == old(self).threshold(),
            final(self).count() == old(self).count(),
            final(self).interval() == old(self).interval(),
            old(self).wf() ==> final(self).wf(),
    {
        self.afterallow = value;
    }
}

proof fn lemma_three_digit_decomp(m: int)
    requires
        0 <= m < 1000,
    ensures
        100 * (m / 100) + 10 * ((m / 10) % 10) + m % 10 == m,
{
    vstd::arithmetic::div_mod::lemma_div_denominator(m, 10, 10);
    vstd::arithmetic::div_mod::lemma_fundamental_div_mod(m, 10);
    vstd::arithmetic::div_mod::lemma_fundamental_div_mod(m / 10, 10);
}

proof fn lemma_u64_chunk(s: Seq<u8>, i: int, n: int)
    requires
        0 <= n <= u64::MAX,
        0 <= i,
        i + dec_digits(n).len() <= s.len(),
        s.subrange(i, i + dec_digits(n).len()) == dec_digits(n),
        i + dec_digits(n).len() < s.len() ==> !is_digit(s[i + dec_digits(n).len()]),
    ensures
        parse_u64(s, i) == Some((n, i + dec_digits(n).len())),
{
    lemma_dec_digits_valid(n);
    let e = i + dec_digits(n).len();
    assert forall|tt: int| i <= tt < e implies is_digit(s[tt]) by {
        assert(s.subrange(i, e)[tt - i] == s[tt]);
        assert(is_digit(dec_digits(n)[tt - i]));
    }
    lemma_digit_run_end_is(s, i, e);
    assert(int_of_digits(s.subrange(i, e)) == n);
}

/// A valid config reads back from its stored form unchanged.
#[verifier::rlimit(60)]
pub proof fn lemma_config_round_trip(c: MisstypeConfig)
    requires
        c.wf(),
    ensures
        decode_spec(encode_spec(c)) == Some(c),
{
    let s = encode_spec(c);
    let t = c.threshold() as int;
    let m = t % 1000;
    let a1 = lit_threshold_key();
    let a2 = dec_digits(t / 1000);
    let a3 = lit_dot();
    let a4 = pad3(m);
    let a5 = lit_count_key();
    let a6 = dec_digits(c.count() as int);
    let a7 = lit_interval_key();
    let a8 = dec_digits(c.interval() as int);
    let a9 = lit_afterallow_key();
    let a10 = if c.afterallow() {
        lit_true()
    } else {
        lit_false()
    };
    let a11 = lit_newline();
    lemma_dec_digits_valid(t / 1000);
    lemma_dec_digits_valid(c.count() as int);
    lemma_dec_digits_valid(c.interval() as int);

    let p1 = a1.len() as int;
    let p2 = p1 + a2.len();
    let p3 = p2 + a3.len();
    let p4 = p3 + a4.len();
    let p5 = p4 + a5.len();
    let p6 = p5 + a6.len();
    let p7 = p6 + a7.len();
    let p8 = p7 + a8.len();
    let p9 = p8 + a9.len();
    let p10 = p9 + a10.len();
    let p11 = p10 + a11.len();
    assert(s.len() == p11);

    assert(s.subrange(0, p1) =~= a1);
    assert(s.subrange(p1, p2) =~= a2);
    assert(s.subrange(p2, p3) =~= a3);
    assert(s.subrange(p3, p4) =~= a4);
    assert(s.subrange(p4, p5) =~= a5);
    assert(s.subrange(p5, p6) =~= a6);
    assert(s.subrange(p6, p7) =~= a7);
    assert(s.subrange(p7, p8) =~= a8);
    assert(s.subrange(p8, p9) =~= a9);
    assert(s.subrange(p9, p10) =~= a10);
    assert(s.subrange(p10, p11) =~= a11);

    // the opening label
    assert(parse_lit(s, 0, a1) == Some(p1));

    // the threshold: whole part, dot, three fractional digits
    assert(s[p2] == 46) by {
        assert(s.subrange(p2, p3)[0] == s[p2]);
    }
    lemma_u64_chunk(s, p1, t / 1000);
    assert(parse_lit(s, p2, a3) == Some(p3));
    assert(s[p3] == (48 + m / 100) as u8) by {
        assert(s.subrange(p3, p4)[0] == s[p3]);
    }
    assert(s[p3 + 1] == (48 + (m / 10) % 10) as u8) by {
        assert(s.subrange(p3, p4)[1] == s[p3 + 1]);
    }
    assert(s[p3 + 2] == (48 + m % 10) as u8) by {
        assert(s.subrange(p3, p4)[2] == s[p3 + 2]);
    }
    lemma_three_digit_decomp(m);
    assert(parse_frac3(s, p3) == Some((m, p4)));
    vstd::arithmetic::div_mod::lemma_fundamental_div_mod(t, 1000);
    assert((t / 1000) * 1000 + m == t);
    assert(parse_threshold(s, p1) == Some((t, p4)));

    // the window-size line
    assert(parse_lit(s, p4, a5) == Some(p5));
    assert(s[p6] == 10) by {
        assert(s.subrange(p6, p7)[0] == s[p6]);
    }
    lemma_u64_chunk(s, p5, c.count() as int);

    // the interval line
    assert(parse_lit(s, p6, a7) == Some(p7));
    assert(s[p8] == 10) by {
        assert(s.subrange(p8, p9)[0] == s[p8]);
    }
    lemma_u64_chunk(s, p7, c.interval() as int);

    // the arrow-policy line
    assert(parse_lit(s, p8, a9) == Some(p9));
    if c.afterallow() {
        assert(parse_lit(s, p9, lit_true()) == Some(p10));
        assert(parse_bool(s, p9) == Some((true, p10)));
    } else {
        assert(s[p9] == 102) by {
            assert(s.subrange(p9, p10)[0] == s[p9]);
        }
        assert(parse_lit(s, p9, lit_true()) is None) by {
            if parse_lit(s, p9, lit_true()) is Some {
                assert(s.subrange(p9, p9 + 4)[0] == s[p9]);
            }
        }
        assert(parse_lit(s, p9, lit_false()) == Some(p10));
        assert(parse_bool(s, p9) == Some((false, p10)));
    }

    // the closing newline, and nothing after it
    assert(parse_lit(s, p10, a11) == Some(p11));

    assert(decode_afterallow_on(s, p8, t, c.count() as int, c.interval() as int) == Some(c));
    assert(decode_interval_on(s, p6, t, c.count() as int) == Some(c));
    assert(decode_count_on(s, p4, t) == Some(c));
}

impl Default for MisstypeConfig {
    /// The fallback settings used when no stored config can be read:
    /// a rate of one tenth, a window of a hundred keys, five seconds
    /// between polls, and arrow-then-backspace counted.
    fn default() -> (c: Self)
        ensures
            c.wf(),
            c.threshold() == 100,
            c.count() == 100,
            c.interval() == 5,
            c.afterallow() == true,
    {
        MisstypeConfig { threshold: 100, count: 100, interval: 5, afterallow: true }
    }
}

} // verus!
