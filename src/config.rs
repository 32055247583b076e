//! The run's configuration and what follows from it: each worker's file
//! name and the size that file must reach before playback.
use crate::schedule::FrameRate;
use crate::session::{SessionConfig, MAX_TIME_LIMIT_SECS};
use vstd::prelude::*;
use vstd::string::StringExecFns;

verus! {

/// Settings shared by every session of a run.
#[derive(Clone, Debug)]
pub struct Config {
    pub threads: u32,
    pub rate: FrameRate,
    pub frame_size: usize,
    /// Bytes the prefetch reader asks for in one read.
    pub buffer_size: usize,
    pub time_limit_secs: u64,
    pub workdir: String,
    pub hostname: String,
}

impl Config {
    /// Settings that a run can start from.
    pub open spec fn wf(self) -> bool {
        &&& self.threads >= 1
        &&& self.rate.wf()
        &&& self.frame_size > 0
        &&& self.buffer_size > 0
        &&& self.time_limit_secs <= MAX_TIME_LIMIT_SECS
    }

    /// The part of the settings that one session plays by.
    pub fn session(&self) -> (r: SessionConfig)
        requires
            self.wf(),
        ensures
            r.wf(),
            r.rate == self.rate,
            r.frame_size == self.frame_size,
            r.time_limit_secs == self.time_limit_secs,
    {
        SessionConfig {
            rate: self.rate,
            frame_size: self.frame_size,
            time_limit_secs: self.time_limit_secs,
        }
    }

    /// Bytes a work file must hold: a whole frame for each frame slot of
    /// every second of the time limit, plus one second; `None` when that
    /// does not fit in 64 bits.
    pub fn workfile_size(&self) -> (r: Option<u64>)
        requires
            self.wf(),
        ensures
            ({
                let want = self.rate.cycle() * self.frame_size * (self.time_limit_secs + 1);
                &&& r is Some <==> want <= u64::MAX
                &&& r matches Some(n) ==> n == want
            }),
    {
        let c = self.rate.cycle_len();
        let per_second = c.checked_mul(self.frame_size as u64);
        let seconds = self.time_limit_secs.checked_add(1);
        let ghost want = self.rate.cycle() * self.frame_size * (self.time_limit_secs + 1);
        match (per_second, seconds) {
            (Some(p), Some(k)) => p.checked_mul(k),
            (None, _) => {
                assert(want > u64::MAX) by (nonlinear_arith)
                    requires
                        c * self.frame_size > u64::MAX,
                        self.time_limit_secs + 1 >= 1,
                        want == c * self.frame_size * (self.time_limit_secs + 1),
                ;
                None
            },
            (Some(p), None) => {
                assert(c * self.frame_size >= 1) by (nonlinear_arith)
                    requires
                        c >= 1,
                        self.frame_size >= 1,
                ;
                assert(want > u64::MAX) by (nonlinear_arith)
                    requires
                        c * self.frame_size >= 1,
                        self.time_limit_secs + 1 > u64::MAX,
                        want == c * self.frame_size * (self.time_limit_secs + 1),
                ;
                None
            },
        }
    }
}

/// Decimal digits of `n`, most significant first.
pub open spec fn decimal(n: nat) -> Seq<char>
    decreases n,
{
    if n < 10 {
        seq![digit_char(n)]
    } else {
        decimal(n / 10).push(digit_char(n % 10))
    }
}

/// The character of decimal digit `d`.
pub open spec fn digit_char(d: nat) -> char {
    ((d + '0' as nat) as u32) as char
}

fn digit_str(d: u32) -> (r: &'static str)
    requires
        d < 10,
    ensures
        r@ == seq![digit_char(d as nat)],
{
    proof {
        reveal_strlit("0");
        reveal_strlit("1");
        reveal_strlit("2");
        reveal_strlit("3");
        reveal_strlit("4");
        reveal_strlit("5");
        reveal_strlit("6");
        reveal_strlit("7");
        reveal_strlit("8");
        reveal_strlit("9");
    }
    match d {
        0 => "0",
        1 => "1",
        2 => "2",
        3 => "3",
        4 => "4",
        5 => "5",
        6 => "6",
        7 => "7",
        8 => "8",
        _ => "9",
    }
}

/// Appends the decimal digits of `n` to `out`.
pub fn push_decimal(out: &mut String, n: u32)
    ensures
        final(out)@ == old(out)@ + decimal(n as nat),
    decreases n,
{
    if n >= 10 {
        push_decimal(out, n / 10);
    }
    out.append(digit_str(n % 10));
    proof {
        if n < 10 {
            assert(n % 10 == n);
            assert(old(out)@ + decimal(n as nat) =~= old(out)@ + seq![digit_char(n as nat)]);
        } else {
            assert(decimal(n as nat) == decimal((n / 10) as nat).push(digit_char((n % 10) as nat)));
        }
    }
}

/// The work file of worker `threadno`: `{workdir}/vio-work-{hostname}-{threadno}`.
pub fn workfile_name(workdir: &str, hostname: &str, threadno: u32) -> (r: String)
    ensures
        r@ == workdir@ + "/vio-work-"@ + hostname@ + "-"@ + decimal(threadno as nat),
{
    let mut path = String::from_str(workdir);
    path.append("/vio-work-");
    path.append(hostname);
    path.append("-");
    push_decimal(&mut path, threadno);
    path
}

} // verus!
