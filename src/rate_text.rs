//! Frame rates written in decimal, such as `24` or `23.976`.
use crate::schedule::{FrameRate, MAX_RATE_DENOM};
use vstd::prelude::*;
use vstd::string::StrSliceExecFns;

verus! {

/// A decimal digit character.
pub open spec fn is_digit(c: char) -> bool {
    '0' <= c && c <= '9'
}

/// The value of a digit character.
pub open spec fn digit_of(c: char) -> nat {
    (c as u32 - '0' as u32) as nat
}

/// Ten to the power `n`.
pub open spec fn pow10(n: nat) -> nat
    decreases n,
{
    if n == 0 {
        1
    } else {
        10 * pow10((n - 1) as nat)
    }
}

/// Every character is a digit or a point.
pub open spec fn digits_or_points(s: Seq<char>) -> bool
    decreases s.len(),
{
    s.len() == 0 || (digits_or_points(s.drop_last()) && (is_digit(s.last()) || s.last() == '.'))
}

/// Number of points in `s`.
pub open spec fn point_count(s: Seq<char>) -> nat
    decreases s.len(),
{
    if s.len() == 0 {
        0
    } else {
        point_count(s.drop_last()) + if s.last() == '.' {
            1nat
        } else {
            0nat
        }
    }
}

/// Number of characters after the last point, or 0 without a point.
pub open spec fn fraction_len(s: Seq<char>) -> nat
    decreases s.len(),
{
    if s.len() == 0 || s.last() == '.' {
        0
    } else if point_count(s.drop_last()) >= 1 {
        fraction_len(s.drop_last()) + 1
    } else {
        0
    }
}

/// The number that the digits of `s` make when its points are left out.
pub open spec fn digits_value(s: Seq<char>) -> nat
    decreases s.len(),
{
    if s.len() == 0 {
        0
    } else if s.last() == '.' {
        digits_value(s.drop_last())
    } else {
        digits_value(s.drop_last()) * 10 + digit_of(s.last())
    }
}

/// Digits with at most one point, which neither starts nor ends the text.
pub open spec fn decimal_shape(s: Seq<char>) -> bool {
    &&& s.len() > 0
    &&& s[0] != '.'
    &&& s.last() != '.'
    &&& digits_or_points(s)
    &&& point_count(s) <= 1
}

proof fn lemma_pow10_mono(a: nat, b: nat)
    requires
        a <= b,
    ensures
        1 <= pow10(a) <= pow10(b),
    decreases b,
{
    if b > 0 {
        if a < b {
            lemma_pow10_mono(a, (b - 1) as nat);
        } else {
            lemma_pow10_mono((a - 1) as nat, (b - 1) as nat);
        }
    }
}

impl FrameRate {
    /// Reads a rate written as digits with an optional fraction, `24` or
    /// `23.976`, as the exact fraction `23976 / 1000`. Gives `None` for any
    /// other text, for a zero rate, for more than nine fraction digits, and
    /// when the digits make a number beyond 64 bits.
    pub fn parse(text: &str) -> (r: Option<FrameRate>)
        ensures
            r is Some <==> (decimal_shape(text@) && fraction_len(text@) <= 9 && 0 < digits_value(
                text@,
            ) <= u64::MAX),
            r matches Some(f) ==> f.wf() && f.num == digits_value(text@) && f.den == pow10(
                fraction_len(text@),
            ),
    {
        let n = text.unicode_len();
        let ghost t = text@;
        let mut i: usize = 0;
        let mut num: u64 = 0;
        let mut over = false;
        let mut bad = false;
        let mut points: usize = 0;
        let mut frac: usize = 0;
        while i < n
            invariant
                n == t.len(),
                t == text@,
                i <= n,
                bad == !digits_or_points(t.take(i as int)),
                points == point_count(t.take(i as int)),
                points <= i,
                frac == fraction_len(t.take(i as int)),
                frac <= i,
                over && !bad ==> digits_value(t.take(i as int)) > u64::MAX,
                !over && !bad ==> num == digits_value(t.take(i as int)),
            decreases n - i,
        {
            let c = text.get_char(i);
            let ghost pre = t.take(i as int);
            assert(t.take(i + 1).drop_last() =~= pre);
            assert(t.take(i + 1).last() == c);
            if c == '.' {
                points = points + 1;
                frac = 0;
            } else {
                if points >= 1 {
                    frac = frac + 1;
                } else {
                    frac = 0;
                }
                if '0' <= c && c <= '9' {
                    let d = (c as u32 - '0' as u32) as u64;
                    if !over {
                        if num <= (u64::MAX - d) / 10 {
                            num = num * 10 + d;
                        } else {
                            assert(num * 10 + d > u64::MAX) by (nonlinear_arith)
                                requires
                                    num > (u64::MAX - d) / 10,
                                    d <= 9,
                            ;
                            over = true;
                        }
                    }
                } else {
                    bad = true;
                }
            }
            i = i + 1;
        }
        assert(t.take(n as int) =~= t);
        if n == 0 || bad || over || points > 1 || frac > 9 || num == 0 {
            return None;
        }
        if text.get_char(0) == '.' || text.get_char(n - 1) == '.' {
            return None;
        }
        let mut den: u64 = 1;
        let mut k: usize = 0;
        proof {
            reveal_with_fuel(pow10, 10);
            assert(pow10(9) == 1_000_000_000);
        }
        while k < frac
            invariant
                k <= frac <= 9,
                den == pow10(k as nat),
                pow10(9) == 1_000_000_000,
            decreases frac - k,
        {
            proof {
                lemma_pow10_mono((k + 1) as nat, 9);
                assert(pow10((k + 1) as nat) == 10 * pow10(k as nat));
            }
            den = den * 10;
            k = k + 1;
        }
        proof {
            lemma_pow10_mono(frac as nat, 9);
        }
        assert(den <= MAX_RATE_DENOM);
        Some(FrameRate { num, den })
    }
}

} // verus!
