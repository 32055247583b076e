//! Per-frame byte quotas and time budgets within one second of playback.
use vstd::arithmetic::div_mod::{
    lemma_fundamental_div_mod, lemma_hoist_over_denominator, lemma_multiply_divide_lt,
    lemma_mod_self_0, lemma_small_mod,
};
use vstd::prelude::*;

verus! {

/// Nanoseconds in one second.
pub const NANOS_PER_SEC: u64 = 1_000_000_000;

/// Largest denominator a frame rate may carry; it bounds the nominal frame
/// duration to at most `10^18` nanoseconds.
pub const MAX_RATE_DENOM: u64 = 1_000_000_000;

/// Largest clock reading, in nanoseconds, that the schedule accepts.
pub const MAX_CLOCK_NS: u64 = 0x4000_0000_0000_0000;

/// A frame rate of exactly `num / den` frames per second.
#[derive(Clone, Copy, Debug, PartialEq, Eq, Structural)]
pub struct FrameRate {
    pub num: u64,
    pub den: u64,
}

impl FrameRate {
    /// A usable rate is positive and its denominator is in range.
    pub open spec fn wf(self) -> bool {
        self.num > 0 && 0 < self.den <= MAX_RATE_DENOM
    }

    /// Number of frames in one second's cycle: the rate rounded up.
    pub open spec fn cycle(self) -> int {
        if self.num % self.den == 0 {
            (self.num / self.den) as int
        } else {
            (self.num / self.den) as int + 1
        }
    }

    /// Bytes to read for frame `i` of a cycle: a whole frame while at least
    /// one whole frame of the rate remains, else the truncated fraction.
    pub open spec fn quota(self, frame_size: int, i: int) -> int {
        let rem = self.num - i * self.den;
        if rem >= self.den {
            frame_size
        } else {
            (frame_size * rem) / (self.den as int)
        }
    }

    /// Nominal duration of one frame in nanoseconds, truncated.
    pub open spec fn nominal_ns(self) -> int {
        (NANOS_PER_SEC * self.den) as int / (self.num as int)
    }

    /// Time budget of frame `i` when `elapsed` nanoseconds of the current
    /// second have passed: the nominal duration, except for the last frame
    /// of the cycle, which gets what is left of the second.
    pub open spec fn budget(self, i: int, elapsed: int) -> int {
        if i + 1 < self.cycle() {
            self.nominal_ns()
        } else {
            NANOS_PER_SEC - elapsed
        }
    }

    /// The frame index that follows `i`.
    pub open spec fn next(self, i: int) -> int {
        (i + 1) % self.cycle()
    }

    /// Sum of the quotas of frames `0 .. n`.
    pub open spec fn cycle_bytes(self, frame_size: int, n: nat) -> int
        decreases n,
    {
        if n == 0 {
            0
        } else {
            self.cycle_bytes(frame_size, (n - 1) as nat) + self.quota(frame_size, n - 1)
        }
    }

    /// The index reached from 0 after `k` calls of `next`.
    pub open spec fn index_after(self, k: nat) -> int
        decreases k,
    {
        if k == 0 {
            0
        } else {
            self.next(self.index_after((k - 1) as nat))
        }
    }

    /// Builds the rate `num / den`, or `None` when it is not usable.
    pub fn new(num: u64, den: u64) -> (r: Option<FrameRate>)
        ensures
            r is Some <==> (num > 0 && 0 < den <= MAX_RATE_DENOM),
            r matches Some(f) ==> f.num == num && f.den == den && f.wf(),
    {
        if num > 0 && 0 < den && den <= MAX_RATE_DENOM {
            Some(FrameRate { num, den })
        } else {
            None
        }
    }

    /// Number of frames in one cycle.
    pub fn cycle_len(&self) -> (r: u64)
        requires
            self.wf(),
        ensures
            r == self.cycle(),
            r >= 1,
    {
        let whole = self.num / self.den;
        if self.num % self.den == 0 {
            assert(whole >= 1) by {
                lemma_rate_whole_parts(*self);
            }
            whole
        } else {
            assert(whole < u64::MAX) by {
                lemma_rate_whole_parts(*self);
            }
            whole + 1
        }
    }

    /// Bytes to read for frame `i`.
    pub fn byte_quota(&self, frame_size: usize, i: u64) -> (r: usize)
        requires
            self.wf(),
            i < self.cycle(),
        ensures
            r == self.quota(frame_size as int, i as int),
            r <= frame_size,
    {
        proof {
            lemma_index_in_rate(*self, i as int);
        }
        let rem = self.num - i * self.den;
        if rem >= self.den {
            frame_size
        } else {
            let fs = frame_size as u128;
            let rm = rem as u128;
            let d = self.den as u128;
            assert(fs * rm < fs * d || fs == 0) by (nonlinear_arith)
                requires
                    rm < d,
            ;
            assert(fs * rm <= u64::MAX as int * u64::MAX as int) by (nonlinear_arith)
                requires
                    fs <= u64::MAX,
                    rm <= u64::MAX,
            ;
            let part = fs * rm / d;
            proof {
                if fs > 0 {
                    assert(d * fs == fs * d) by (nonlinear_arith);
                    lemma_multiply_divide_lt(fs * rm, d as int, fs as int);
                } else {
                    assert(fs * rm == 0) by (nonlinear_arith)
                        requires
                            fs == 0,
                    ;
                }
                assert(part < fs || part == 0);
            }
            part as usize
        }
    }

    /// Nominal duration of one frame in nanoseconds.
    pub fn nominal_frame_ns(&self) -> (r: u64)
        requires
            self.wf(),
        ensures
            r == self.nominal_ns(),
            r <= NANOS_PER_SEC * MAX_RATE_DENOM,
    {
        assert(NANOS_PER_SEC * self.den <= NANOS_PER_SEC * MAX_RATE_DENOM) by (nonlinear_arith)
            requires
                self.den <= MAX_RATE_DENOM,
        ;
        let scaled = NANOS_PER_SEC * self.den;
        assert(scaled / self.num <= scaled) by (nonlinear_arith)
            requires
                self.num >= 1,
        ;
        scaled / self.num
    }

    /// Time budget of frame `i`, in nanoseconds, when `elapsed_ns` of the
    /// current second have passed. It may be zero or negative, meaning the
    /// frame has already expired.
    pub fn time_budget(&self, i: u64, elapsed_ns: u64) -> (r: i64)
        requires
            self.wf(),
            i < self.cycle(),
            elapsed_ns <= MAX_CLOCK_NS,
        ensures
            r == self.budget(i as int, elapsed_ns as int),
    {
        let c = self.cycle_len();
        if i + 1 < c {
            self.nominal_frame_ns() as i64
        } else {
            NANOS_PER_SEC as i64 - elapsed_ns as i64
        }
    }

    /// The frame index that follows `i`; 0 marks the start of a new second.
    pub fn next_index(&self, i: u64) -> (r: u64)
        requires
            self.wf(),
            i < self.cycle(),
        ensures
            r == self.next(i as int),
            r < self.cycle(),
    {
        let c = self.cycle_len();
        if i + 1 < c {
            proof {
                lemma_small_mod((i + 1) as nat, c as nat);
            }
            i + 1
        } else {
            assert((i + 1) % (c as int) == 0) by {
                assert(i + 1 == c);
                lemma_mod_self_0(c as int);
            }
            0
        }
    }
}

proof fn lemma_rate_whole_parts(rate: FrameRate)
    requires
        rate.wf(),
    ensures
        rate.num == rate.den * (rate.num / rate.den) + rate.num % rate.den,
        rate.num % rate.den == 0 ==> rate.num / rate.den >= 1,
        rate.num / rate.den <= rate.num,
        rate.den > 1 ==> rate.num / rate.den < rate.num,
        rate.cycle() >= 1,
{
    lemma_fundamental_div_mod(rate.num as int, rate.den as int);
    assert(rate.num / rate.den <= rate.num) by (nonlinear_arith)
        requires
            rate.den >= 1,
    ;
    if rate.den > 1 {
        assert(rate.num / rate.den < rate.num) by (nonlinear_arith)
            requires
                rate.den > 1,
                rate.num > 0,
        ;
    }
}

/// Every usable rate has at least one frame per cycle.
pub proof fn lemma_cycle_positive(rate: FrameRate)
    requires
        rate.wf(),
    ensures
        rate.cycle() >= 1,
{
    lemma_rate_whole_parts(rate);
}

/// An index of the cycle stands strictly below the rate: `i * den < num`,
/// and every index but the last leaves at least one whole frame.
proof fn lemma_index_in_rate(rate: FrameRate, i: int)
    requires
        rate.wf(),
        0 <= i < rate.cycle(),
    ensures
        i * rate.den < rate.num,
        i + 1 < rate.cycle() ==> rate.num - i * rate.den >= rate.den,
        i + 1 == rate.cycle() ==> rate.num - i * rate.den <= rate.den,
{
    lemma_rate_whole_parts(rate);
    let q = (rate.num / rate.den) as int;
    let m = (rate.num % rate.den) as int;
    let d = rate.den as int;
    assert(rate.num == d * q + m);
    assert(0 <= m < d);
    if m == 0 {
        assert(i * d < d * q) by (nonlinear_arith)
            requires
                i < q,
                d > 0,
        ;
        if i + 1 < q {
            assert((i + 1) * d <= d * q) by (nonlinear_arith)
                requires
                    i + 1 <= q,
                    d > 0,
            ;
            assert((i + 1) * d == i * d + d) by (nonlinear_arith);
        }
        if i + 1 == q {
            assert(d * q == i * d + d) by (nonlinear_arith)
                requires
                    i + 1 == q,
            ;
        }
    } else {
        assert(i * d <= d * q) by (nonlinear_arith)
            requires
                i <= q,
                d > 0,
        ;
        if i + 1 < q + 1 {
            assert((i + 1) * d <= d * q) by (nonlinear_arith)
                requires
                    i + 1 <= q,
                    d > 0,
            ;
            assert((i + 1) * d == i * d + d) by (nonlinear_arith);
        }
        if i + 1 == q + 1 {
            assert(d * q == i * d) by (nonlinear_arith)
                requires
                    i == q,
            ;
        }
    }
}

proof fn lemma_whole_frames_sum(rate: FrameRate, frame_size: int, n: nat)
    requires
        rate.wf(),
        n < rate.cycle(),
    ensures
        rate.cycle_bytes(frame_size, n) == n * frame_size,
    decreases n,
{
    if n > 0 {
        let m = (n - 1) as nat;
        lemma_whole_frames_sum(rate, frame_size, m);
        lemma_index_in_rate(rate, m as int);
        assert(rate.quota(frame_size, m as int) == frame_size);
        assert(m * frame_size + frame_size == n * frame_size) by (nonlinear_arith)
            requires
                m + 1 == n,
        ;
    } else {
        assert(n * frame_size == 0) by (nonlinear_arith)
            requires
                n == 0,
        ;
    }
}

/// Over one full cycle the quotas add up to the bytes that the rate asks
/// for in one second, `frame_size * rate`, truncated to a whole byte.
pub proof fn lemma_cycle_bytes_match_rate(rate: FrameRate, frame_size: int)
    requires
        rate.wf(),
        frame_size > 0,
    ensures
        rate.cycle_bytes(frame_size, rate.cycle() as nat) == (frame_size * rate.num) / (
        rate.den as int),
{
    lemma_rate_whole_parts(rate);
    let c = rate.cycle();
    let last = c - 1;
    let d = rate.den as int;
    let n = rate.num as int;
    lemma_whole_frames_sum(rate, frame_size, last as nat);
    lemma_index_in_rate(rate, last);
    let rem = n - last * d;
    assert(frame_size * n == last * frame_size * d + frame_size * rem) by (nonlinear_arith)
        requires
            rem == n - last * d,
    ;
    if rem >= d {
        assert(rem == d);
        assert(frame_size * n == c * frame_size * d) by (nonlinear_arith)
            requires
                frame_size * n == last * frame_size * d + frame_size * rem,
                rem == d,
                c == last + 1,
        ;
        assert(frame_size * n == (c * frame_size) * d) by (nonlinear_arith)
            requires
                frame_size * n == c * frame_size * d,
        ;
        assert(((c * frame_size) * d) / d == c * frame_size) by (nonlinear_arith)
            requires
                d > 0,
        ;
        assert(last * frame_size + frame_size == c * frame_size) by (nonlinear_arith)
            requires
                c == last + 1,
        ;
    } else {
        lemma_hoist_over_denominator(frame_size * rem, last * frame_size, d as nat);
        assert(last * frame_size * d == (last * frame_size) * d) by (nonlinear_arith);
    }
}

/// At a whole-number rate every quota is a whole frame, and the cycle is
/// exactly as long as the rate.
pub proof fn lemma_integral_rate(rate: FrameRate, frame_size: int)
    requires
        rate.wf(),
        rate.num % rate.den == 0,
    ensures
        rate.cycle() == rate.num / rate.den,
        forall|i: int| 0 <= i < rate.cycle() ==> #[trigger] rate.quota(frame_size, i) == frame_size,
{
    assert forall|i: int| 0 <= i < rate.cycle() implies #[trigger] rate.quota(frame_size, i)
        == frame_size by {
        lemma_index_in_rate(rate, i);
        lemma_rate_whole_parts(rate);
        if i + 1 == rate.cycle() {
            let q = (rate.num / rate.den) as int;
            assert(i * rate.den + rate.den == rate.den * q) by (nonlinear_arith)
                requires
                    i + 1 == q,
            ;
        }
    }
}

/// At a fractional rate exactly one frame of the cycle, the last, gets less
/// than a whole frame.
pub proof fn lemma_fractional_rate(rate: FrameRate, frame_size: int)
    requires
        rate.wf(),
        frame_size > 0,
        rate.num % rate.den != 0,
    ensures
        Set::new(|i: int| 0 <= i < rate.cycle() && rate.quota(frame_size, i) < frame_size)
            == set![rate.cycle() - 1],
{
    let c = rate.cycle();
    let short = Set::new(|i: int| 0 <= i < c && rate.quota(frame_size, i) < frame_size);
    assert forall|i: int| 0 <= i < c implies (rate.quota(frame_size, i) < frame_size <==> i == c
        - 1) by {
        lemma_index_in_rate(rate, i);
        lemma_rate_whole_parts(rate);
        let rem = rate.num - i * rate.den;
        if i == c - 1 {
            let q = (rate.num / rate.den) as int;
            assert(i * rate.den == rate.den * q) by (nonlinear_arith)
                requires
                    i == q,
            ;
            assert(rem < rate.den);
            assert(frame_size * rem < frame_size * rate.den) by (nonlinear_arith)
                requires
                    rem < rate.den,
                    frame_size > 0,
            ;
            lemma_multiply_divide_lt(frame_size * rem, rate.den as int, frame_size);
            assert(rate.den * frame_size == frame_size * rate.den) by (nonlinear_arith);
        }
    }
    assert(short =~= set![c - 1]);
}

/// Stepping with `next` from 0 visits `k % cycle` after `k` steps, so within
/// each run of `cycle` steps the index comes back to 0 exactly once, on the
/// last step.
pub proof fn lemma_next_index_cycles(rate: FrameRate, k: nat)
    requires
        rate.wf(),
    ensures
        rate.index_after(k) == (k as int) % rate.cycle(),
        forall|j: nat|
            1 <= j <= rate.cycle() ==> (#[trigger] rate.index_after(j) == 0 <==> j == rate.cycle()),
{
    let c = rate.cycle();
    lemma_rate_whole_parts(rate);
    lemma_index_after_mod(rate, k);
    assert forall|j: nat| 1 <= j <= c implies (#[trigger] rate.index_after(j) == 0 <==> j == c) by {
        lemma_index_after_mod(rate, j);
        if j < c {
            assert((j as int) % c == j) by (nonlinear_arith)
                requires
                    j < c,
            ;
        } else {
            assert((j as int) % c == 0) by (nonlinear_arith)
                requires
                    j == c,
                    c >= 1,
            ;
        }
    }
}

proof fn lemma_index_after_mod(rate: FrameRate, k: nat)
    requires
        rate.wf(),
    ensures
        rate.index_after(k) == (k as int) % rate.cycle(),
    decreases k,
{
    lemma_rate_whole_parts(rate);
    if k > 0 {
        let m = (k - 1) as nat;
        lemma_index_after_mod(rate, m);
        let c = rate.cycle();
        let p = (m as int) % c;
        assert(rate.index_after(k) == (p + 1) % c);
        assert((p + 1) % c == (k as int) % c) by (nonlinear_arith)
            requires
                p == (m as int) % c,
                c >= 1,
                m + 1 == k,
        ;
    } else {
        lemma_small_mod(0, rate.cycle() as nat);
    }
}

} // verus!
