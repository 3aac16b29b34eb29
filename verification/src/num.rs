//! Decimal text and exact quotients.
//!
//! Counter values arrive as decimal ASCII text and metric files are written
//! as decimal ASCII text; both directions are verified here. Derived metrics
//! (average power, average temperature) are exact quotients of integer sums,
//! kept as numerator/denominator pairs so that no precision is lost before
//! rendering.

use vstd::prelude::*;
use vstd::arithmetic::div_mod::{
    lemma_fundamental_div_mod, lemma_multiply_divide_lt,
};

verus! {

/// `c` is an ASCII decimal digit.
pub open spec fn is_dec_digit(c: char) -> bool {
    48 <= c as u32 <= 57
}

/// Numeric value of the digit `c`.
pub open spec fn digit_val(c: char) -> nat {
    (c as u32 - 48) as nat
}

/// Every character of `s` is a decimal digit.
pub open spec fn all_dec_digits(s: Seq<char>) -> bool {
    forall|i: int| 0 <= i < s.len() ==> is_dec_digit(#[trigger] s[i])
}

/// Value of `s` read as an unsigned decimal numeral (most significant
/// digit first); the empty sequence reads as zero.
pub open spec fn dec_val(s: Seq<char>) -> nat
    decreases s.len(),
{
    if s.len() == 0 {
        0
    } else {
        dec_val(s.drop_last()) * 10 + digit_val(s.last())
    }
}

/// `s` is a well-formed signed decimal numeral: an optional leading minus
/// sign followed by at least one digit.
pub open spec fn is_dec_int(s: Seq<char>) -> bool {
    if s.len() > 0 && s[0] == '-' {
        s.len() > 1 && all_dec_digits(s.subrange(1, s.len() as int))
    } else {
        s.len() > 0 && all_dec_digits(s)
    }
}

/// Value of `s` read as a signed decimal numeral.
pub open spec fn int_val(s: Seq<char>) -> int {
    if s.len() > 0 && s[0] == '-' {
        -(dec_val(s.subrange(1, s.len() as int)) as int)
    } else {
        dec_val(s) as int
    }
}

/// A digit string's value only grows as more digits are appended, so the
/// value of any prefix bounds the value of the whole from below.
proof fn lemma_dec_val_prefix_le(s: Seq<char>, i: int)
    requires
        0 <= i <= s.len(),
        all_dec_digits(s),
    ensures
        dec_val(s.subrange(0, i)) <= dec_val(s),
    decreases s.len() - i,
{
    if i == s.len() {
        assert(s.subrange(0, i) =~= s);
    } else {
        lemma_dec_val_prefix_le(s, i + 1);
        let p = s.subrange(0, i);
        let q = s.subrange(0, i + 1);
        assert(q.drop_last() =~= p);
        assert(dec_val(q) == dec_val(p) * 10 + digit_val(s[i]));
    }
}

/// Parses an unsigned decimal numeral. Returns the value exactly when `s`
/// is non-empty, consists of digits only, and the value fits in a `u64`.
pub fn parse_u64(s: &str) -> (r: Option<u64>)
    ensures
        match r {
            Some(v) => s@.len() > 0 && all_dec_digits(s@) && v as nat == dec_val(s@),
            None => s@.len() == 0 || !all_dec_digits(s@) || dec_val(s@) > u64::MAX,
        },
{
    let n = s.unicode_len();
    if n == 0 {
        return None;
    }
    let mut val: u64 = 0;
    let mut i: usize = 0;
    while i < n
        invariant
            0 <= i <= n,
            n == s@.len(),
            all_dec_digits(s@.subrange(0, i as int)),
            val as nat == dec_val(s@.subrange(0, i as int)),
        decreases n - i,
    {
        let c = s.get_char(i);
        let cv = c as u32;
        if cv < 48 || cv > 57 {
            assert(!is_dec_digit(s@[i as int]));
            return None;
        }
        let d = (cv - 48) as u64;
        proof {
            assert(s@.subrange(0, i + 1).drop_last() =~= s@.subrange(0, i as int));
            assert(dec_val(s@.subrange(0, i + 1)) == val * 10 + d);
            lemma_fundamental_div_mod((u64::MAX - d) as int, 10);
        }
        if val > (u64::MAX - d) / 10 {
            // The prefix read so far already exceeds the range; since every
            // further digit only grows the value, the whole numeral does too.
            proof {
                if all_dec_digits(s@) {
                    lemma_dec_val_prefix_le(s@, i + 1);
                }
            }
            return None;
        }
        val = val * 10 + d;
        proof {
            assert(all_dec_digits(s@.subrange(0, i + 1)));
        }
        i = i + 1;
    }
    proof {
        assert(s@.subrange(0, n as int) =~= s@);
    }
    Some(val)
}

/// Parses a signed decimal numeral. Returns the value exactly when `s` is
/// well formed and the value fits in an `i64`.
pub fn parse_i64(s: &str) -> (r: Option<i64>)
    ensures
        match r {
            Some(v) => is_dec_int(s@) && v as int == int_val(s@),
            None => !is_dec_int(s@) || int_val(s@) < i64::MIN || int_val(s@) > i64::MAX,
        },
{
    let n = s.unicode_len();
    if n == 0 {
        return None;
    }
    if s.get_char(0) == '-' {
        let digits = s.substring_char(1, n);
        proof {
            assert(digits@ =~= s@.subrange(1, s@.len() as int));
        }
        match parse_u64(digits) {
            Some(mag) => {
                if mag > 9223372036854775808u64 {
                    // magnitude beyond |i64::MIN|
                    None
                } else if mag == 9223372036854775808u64 {
                    Some(i64::MIN)
                } else {
                    Some(-(mag as i64))
                }
            },
            None => {
                // either malformed, or the magnitude exceeds u64 and so
                // certainly exceeds |i64::MIN|
                None
            },
        }
    } else {
        match parse_u64(s) {
            Some(v) => {
                if v > i64::MAX as u64 {
                    None
                } else {
                    Some(v as i64)
                }
            },
            None => None,
        }
    }
}

/// Decimal rendering of `n`, most significant digit first, as ASCII bytes.
pub open spec fn dec_str(n: nat) -> Seq<u8>
    decreases n,
{
    if n < 10 {
        seq![(48 + n) as u8]
    } else {
        dec_str(n / 10).push((48 + n % 10) as u8)
    }
}

/// Appends the decimal rendering of `n` to `out`.
pub fn push_dec_u128(n: u128, out: &mut Vec<u8>)
    ensures
        final(out)@ == old(out)@ + dec_str(n as nat),
    decreases n,
{
    if n < 10 {
        out.push(48 + n as u8);
        proof {
            assert(out@ =~= old(out)@ + dec_str(n as nat));
        }
    } else {
        proof {
            lemma_fundamental_div_mod(n as int, 10);
        }
        push_dec_u128(n / 10, out);
        out.push(48 + (n % 10) as u8);
        proof {
            assert(out@ =~= old(out)@ + dec_str(n as nat));
        }
    }
}

/// The three ASCII digits after the decimal point when `num / den` is
/// rendered with exactly three fractional digits, truncated.
pub open spec fn frac3(num: nat, den: nat) -> Seq<u8>
    recommends
        den > 0,
{
    let f = ((num as int) % (den as int)) * 1000 / (den as int);
    seq![(48 + f / 100) as u8, (48 + (f / 10) % 10) as u8, (48 + f % 10) as u8]
}

/// `num / den` rendered as decimal ASCII with exactly three fractional
/// digits, truncated: `<integer part>.<three digits>`.
pub open spec fn scaled_dec(num: nat, den: nat) -> Seq<u8>
    recommends
        den > 0,
{
    dec_str(((num as int) / (den as int)) as nat) + seq![46u8] + frac3(num, den)
}

/// Signed variant of [`scaled_dec`]: a leading minus sign when `num` is
/// negative, then the rendering of the magnitude.
pub open spec fn scaled_dec_signed(num: int, den: nat) -> Seq<u8>
    recommends
        den > 0,
{
    if num >= 0 {
        scaled_dec(num as nat, den)
    } else {
        seq![45u8] + scaled_dec((-num) as nat, den)
    }
}

/// Renders `num / den` as decimal ASCII with three fractional digits.
pub fn format_scaled(num: u128, den: u64) -> (r: Vec<u8>)
    requires
        den > 0,
    ensures
        r@ == scaled_dec(num as nat, den as nat),
{
    let d = den as u128;
    let q = num / d;
    let rem = num % d;
    proof {
        lemma_fundamental_div_mod(num as int, d as int);
        assert(rem < d);
        assert(rem * 1000 < d * 1000) by (nonlinear_arith)
            requires rem < d;
        lemma_multiply_divide_lt((rem * 1000) as int, d as int, 1000);
    }
    let f = (rem * 1000) / d;
    assert(f < 1000);
    let mut out: Vec<u8> = Vec::new();
    push_dec_u128(q, &mut out);
    out.push(46);
    out.push(48 + (f / 100) as u8);
    out.push(48 + ((f / 10) % 10) as u8);
    out.push(48 + (f % 10) as u8);
    proof {
        assert(out@ =~= scaled_dec(num as nat, den as nat));
    }
    out
}

/// Renders `num / den` as decimal ASCII with three fractional digits and a
/// leading minus sign when `num` is negative.
pub fn format_scaled_signed(num: i128, den: u64) -> (r: Vec<u8>)
    requires
        den > 0,
    ensures
        r@ == scaled_dec_signed(num as int, den as nat),
{
    if num >= 0 {
        format_scaled(num as u128, den)
    } else {
        let mag: u128 = ((-(num + 1)) as u128) + 1;
        assert(mag == -(num as int));
        let mut out: Vec<u8> = Vec::new();
        out.push(45);
        let body = format_scaled(mag, den);
        let mut k: usize = 0;
        let m = body.len();
        while k < m
            invariant
                0 <= k <= m,
                m == body@.len(),
                out@ == seq![45u8] + body@.subrange(0, k as int),
            decreases m - k,
        {
            let b = *body.get(k).unwrap();
            out.push(b);
            proof {
                assert(out@ =~= seq![45u8] + body@.subrange(0, k + 1));
            }
            k = k + 1;
        }
        proof {
            assert(body@.subrange(0, m as int) =~= body@);
        }
        out
    }
}

/// Exact average electrical power over a recording window: total energy in
/// microjoules over the window length in seconds. The quotient is the power
/// in microwatts.
#[derive(Debug)]
pub struct PowerRate {
    /// Total energy attributed to the guest over the window, in microjoules.
    pub microjoules: u128,
    /// Window duration in whole seconds; always positive.
    pub seconds: u64,
}

impl PowerRate {
    /// A meaningful rate has a positive window length.
    pub open spec fn wf(&self) -> bool {
        self.seconds > 0
    }

    /// Decimal ASCII rendering, three fractional digits, truncated.
    pub fn render(&self) -> (r: Vec<u8>)
        requires
            self.wf(),
        ensures
            r@ == scaled_dec(self.microjoules as nat, self.seconds as nat),
    {
        format_scaled(self.microjoules, self.seconds)
    }
}

/// Exact arithmetic mean of a temperature series: the sum of the sampled
/// millidegrees over the number of samples.
#[derive(Debug)]
pub struct TempMean {
    /// Sum of all samples, in millidegrees.
    pub sum_millidegrees: i128,
    /// Number of samples; always positive.
    pub samples: u64,
}

impl TempMean {
    /// A meaningful mean averages at least one sample.
    pub open spec fn wf(&self) -> bool {
        self.samples > 0
    }

    /// Decimal ASCII rendering, three fractional digits, truncated.
    pub fn render(&self) -> (r: Vec<u8>)
        requires
            self.wf(),
        ensures
            r@ == scaled_dec_signed(self.sum_millidegrees as int, self.samples as nat),
    {
        format_scaled_signed(self.sum_millidegrees, self.samples)
    }
}

} // verus!
