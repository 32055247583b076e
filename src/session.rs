//! One playback session as a state machine. The caller owns the clock and
//! the data source: it performs each `Action` and reports back what
//! happened, with the monotonic clock reading in nanoseconds.
use crate::pipeline::absorb;
use crate::schedule::{lemma_cycle_positive, FrameRate, MAX_CLOCK_NS, NANOS_PER_SEC};
use vstd::prelude::*;

verus! {

/// Longest time limit, in seconds, that a session accepts.
pub const MAX_TIME_LIMIT_SECS: u64 = 0x1_0000_0000;

/// What one session plays: the rate, the bytes of a whole frame, and how
/// long to play.
#[derive(Clone, Copy, Debug, PartialEq, Eq, Structural)]
pub struct SessionConfig {
    pub rate: FrameRate,
    pub frame_size: usize,
    pub time_limit_secs: u64,
}

impl SessionConfig {
    /// A usable rate, a non-empty frame and a time limit in range.
    pub open spec fn wf(self) -> bool {
        self.rate.wf() && self.frame_size > 0 && self.time_limit_secs <= MAX_TIME_LIMIT_SECS
    }
}

/// Where the session stands between two calls.
#[derive(Clone, Copy, Debug, PartialEq, Eq, Structural)]
pub enum Phase {
    /// The current frame still wants bytes: the caller reads one chunk.
    Reading,
    /// The current frame is over: the caller waits, then reads the clock.
    Pacing,
    /// The session has ended.
    Done,
}

/// Why a session ended.
#[derive(Clone, Copy, Debug, PartialEq, Eq, Structural)]
pub enum StopReason {
    EndOfStream,
    TimeLimit,
}

/// What the caller is to do next.
#[derive(Clone, Copy, Debug, PartialEq, Eq, Structural)]
pub enum Action {
    /// Read one chunk of at most the source's buffer size and report its
    /// length through `on_chunk` (0 at the end of the data).
    Read,
    /// Sleep this many nanoseconds, then report the clock through `on_woke`.
    Wait(u64),
    /// Stop and report the counters.
    Stop(StopReason),
}

/// The state of one playback session.
#[derive(Clone, Copy, Debug)]
pub struct Session {
    pub rate: FrameRate,
    pub frame_size: usize,
    /// Clock reading at which the session ends.
    pub end_ns: u64,
    /// Index of the current frame within its second.
    pub index: u64,
    /// Clock reading at which the current second began.
    pub second_start: u64,
    /// Clock reading at which the current frame began.
    pub frame_start: u64,
    /// Time budget of the current frame; zero or less means expired.
    pub budget: i64,
    /// Bytes the current frame still wants.
    pub need: usize,
    /// Bytes received but not yet consumed by any frame.
    pub credit: usize,
    /// Frames attempted.
    pub total: u64,
    /// Frames whose deadline was missed.
    pub fails: u64,
    pub phase: Phase,
    /// Latest clock reading.
    pub now: u64,
}

/// The state and action once frame `s.index` has begun at `now`: the frame
/// is counted and gets its budget; an expired budget is a miss at once;
/// credit in hand that exceeds the quota completes the frame; otherwise the
/// rest of the quota is read.
pub open spec fn frame_begun(s: Session, now: int, t: Session, act: Action) -> bool {
    let budget = s.rate.budget(s.index as int, now - s.second_start);
    let quota = s.rate.quota(s.frame_size as int, s.index as int);
    &&& t.rate == s.rate
    &&& t.frame_size == s.frame_size
    &&& t.end_ns == s.end_ns
    &&& t.index == s.index
    &&& t.second_start == s.second_start
    &&& t.frame_start == now
    &&& t.now == now
    &&& t.budget == budget
    &&& t.total == s.total + 1
    &&& if budget <= 0 {
        &&& t.fails == s.fails + 1
        &&& t.credit == s.credit
        &&& t.phase == Phase::Pacing
        &&& act == Action::Wait(0)
    } else if s.credit > quota {
        &&& t.fails == s.fails
        &&& t.credit == s.credit - quota
        &&& t.phase == Phase::Pacing
        &&& act == Action::Wait(budget as u64)
    } else {
        &&& t.fails == s.fails
        &&& t.need == quota - s.credit
        &&& t.credit == 0
        &&& t.phase == Phase::Reading
        &&& act == Action::Read
    }
}

impl Session {
    /// The invariant that every reachable state keeps. In particular a read
    /// is asked for only while the current frame is within its budget, so
    /// a frame overruns its deadline by at most one chunk read.
    pub open spec fn wf(self) -> bool {
        &&& self.rate.wf()
        &&& self.frame_size > 0
        &&& self.index < self.rate.cycle()
        &&& self.second_start <= self.frame_start <= self.now <= MAX_CLOCK_NS
        &&& self.budget == self.rate.budget(
            self.index as int,
            self.frame_start - self.second_start,
        )
        &&& 1 <= self.total
        &&& self.fails <= self.total
        &&& self.phase == Phase::Reading ==> self.credit == 0 && self.fails < self.total
        &&& self.phase == Phase::Reading ==> self.now - self.frame_start <= self.budget
    }

    /// Starts a session at clock reading `now` and begins its first frame.
    pub fn start(config: &SessionConfig, now: u64) -> (r: (Session, Action))
        requires
            config.wf(),
            now <= MAX_CLOCK_NS,
        ensures
            r.0.wf(),
            r.0.end_ns == now + config.time_limit_secs * NANOS_PER_SEC,
            frame_begun(
                (Session {
                    rate: config.rate,
                    frame_size: config.frame_size,
                    end_ns: r.0.end_ns,
                    index: 0,
                    second_start: now,
                    frame_start: now,
                    budget: r.0.budget,
                    need: 0,
                    credit: 0,
                    total: 0,
                    fails: 0,
                    phase: Phase::Pacing,
                    now: now,
                }),
                now as int,
                r.0,
                r.1,
            ),
    {
        assert(config.time_limit_secs * NANOS_PER_SEC <= MAX_TIME_LIMIT_SECS * NANOS_PER_SEC)
            by (nonlinear_arith)
            requires
                config.time_limit_secs <= MAX_TIME_LIMIT_SECS,
        ;
        let end_ns = now + config.time_limit_secs * NANOS_PER_SEC;
        proof {
            lemma_cycle_positive(config.rate);
        }
        let mut s = Session {
            rate: config.rate,
            frame_size: config.frame_size,
            end_ns,
            index: 0,
            second_start: now,
            frame_start: now,
            budget: 0,
            need: 0,
            credit: 0,
            total: 0,
            fails: 0,
            phase: Phase::Pacing,
            now,
        };
        let act = s.begin_frame(now);
        (s, act)
    }

    /// Begins frame `self.index` at `now`.
    fn begin_frame(&mut self, now: u64) -> (act: Action)
        requires
            old(self).rate.wf(),
            old(self).frame_size > 0,
            old(self).index < old(self).rate.cycle(),
            old(self).second_start <= now <= MAX_CLOCK_NS,
            old(self).fails <= old(self).total < u64::MAX,
        ensures
            final(self).wf(),
            frame_begun(*old(self), now as int, *final(self), act),
    {
        let budget = self.rate.time_budget(self.index, now - self.second_start);
        let quota = self.rate.byte_quota(self.frame_size, self.index);
        self.frame_start = now;
        self.now = now;
        self.budget = budget;
        self.total = self.total + 1;
        if budget <= 0 {
            self.fails = self.fails + 1;
            self.phase = Phase::Pacing;
            Action::Wait(0)
        } else if self.credit > quota {
            self.credit = self.credit - quota;
            self.phase = Phase::Pacing;
            Action::Wait(budget as u64)
        } else {
            self.need = quota - self.credit;
            self.credit = 0;
            self.phase = Phase::Reading;
            Action::Read
        }
    }

    /// Takes the length of the chunk just read (0 at the end of the data)
    /// and the clock reading after the read. An empty chunk ends the session
    /// whatever time is left, and counts the frame as a miss when the read
    /// ended past its budget. Otherwise the chunk becomes credit and pays for
    /// the frame; past the budget the frame is a miss and no further read is
    /// asked for; within it, a frame whose quota is covered with credit to
    /// spare waits out the rest of its budget, and any other reads again.
    pub fn on_chunk(&mut self, len: usize, now: u64) -> (act: Action)
        requires
            old(self).wf(),
            old(self).phase == Phase::Reading,
            old(self).now <= now <= MAX_CLOCK_NS,
        ensures
            final(self).wf(),
            final(self).rate == old(self).rate,
            final(self).frame_size == old(self).frame_size,
            final(self).end_ns == old(self).end_ns,
            final(self).index == old(self).index,
            final(self).second_start == old(self).second_start,
            final(self).frame_start == old(self).frame_start,
            final(self).budget == old(self).budget,
            final(self).total == old(self).total,
            final(self).now == now,
            len == 0 ==> act == Action::Stop(StopReason::EndOfStream) && final(self).phase
                == Phase::Done && final(self).fails == old(self).fails + (if now
                - old(self).frame_start > old(self).budget {
                1int
            } else {
                0int
            }),
            len > 0 ==> ({
                let elapsed = now - old(self).frame_start;
                let covered = len > old(self).need;
                &&& final(self).credit == (if covered {
                    len - old(self).need
                } else {
                    0
                })
                &&& !covered ==> final(self).need == old(self).need - len
                &&& if elapsed > old(self).budget {
                    &&& final(self).fails == old(self).fails + 1
                    &&& final(self).phase == Phase::Pacing
                    &&& act == Action::Wait(0)
                } else if covered {
                    &&& final(self).fails == old(self).fails
                    &&& final(self).phase == Phase::Pacing
                    &&& act == Action::Wait((old(self).budget - elapsed) as u64)
                } else {
                    &&& final(self).fails == old(self).fails
                    &&& final(self).phase == Phase::Reading
                    &&& act == Action::Read
                }
            }),
    {
        self.now = now;
        let elapsed = now - self.frame_start;
        let chunk = if len > 0 {
            Some(len)
        } else {
            None
        };
        let (credit, need) = match absorb(self.credit, self.need, chunk) {
            Some(step) => step,
            None => {
                if elapsed as i64 > self.budget {
                    self.fails = self.fails + 1;
                }
                self.phase = Phase::Done;
                return Action::Stop(StopReason::EndOfStream);
            },
        };
        let covered = credit > need;
        if covered {
            self.credit = credit - need;
        } else {
            self.need = need - credit;
            self.credit = 0;
        }
        if elapsed as i64 > self.budget {
            self.fails = self.fails + 1;
            self.phase = Phase::Pacing;
            Action::Wait(0)
        } else if covered {
            self.phase = Phase::Pacing;
            Action::Wait((self.budget - elapsed as i64) as u64)
        } else {
            Action::Read
        }
    }

    /// Takes the clock reading after a wait. At or past the session's end
    /// time the session stops; otherwise the next frame index is taken, a
    /// new second begins when it wraps to 0, and that frame begins now.
    pub fn on_woke(&mut self, now: u64) -> (act: Action)
        requires
            old(self).wf(),
            old(self).phase == Phase::Pacing,
            old(self).now <= now <= MAX_CLOCK_NS,
            old(self).total < u64::MAX,
        ensures
            final(self).wf(),
            now >= old(self).end_ns ==> act == Action::Stop(StopReason::TimeLimit)
                && *final(self) == (Session { phase: Phase::Done, now: now, ..*old(self) }),
            now < old(self).end_ns ==> ({
                let next = old(self).rate.next(old(self).index as int);
                let second_start = if next == 0 {
                    now
                } else {
                    old(self).second_start
                };
                frame_begun(
                    (Session { index: next as u64, second_start: second_start, ..*old(self) }),
                    now as int,
                    *final(self),
                    act,
                )
            }),
    {
        if now >= self.end_ns {
            self.now = now;
            self.phase = Phase::Done;
            return Action::Stop(StopReason::TimeLimit);
        }
        let next = self.rate.next_index(self.index);
        self.index = next;
        if next == 0 {
            self.second_start = now;
        }
        self.begin_frame(now)
    }
}

} // verus!
