use vio::schedule::FrameRate;
use vio::session::{Action, Phase, Session, SessionConfig, StopReason};

const MS: u64 = 1_000_000;

fn config(num: u64, den: u64, frame_size: usize, secs: u64) -> SessionConfig {
    SessionConfig { rate: FrameRate::new(num, den).unwrap(), frame_size, time_limit_secs: secs }
}

/// Runs a session on a simulated clock starting at `start`; `source` gives
/// the length of each chunk read and how long the read took.
fn simulate(
    config: &SessionConfig,
    start: u64,
    mut source: impl FnMut() -> (usize, u64),
) -> (Session, StopReason, u64) {
    let mut now = start;
    let (mut s, mut act) = Session::start(config, now);
    let mut reads = 0;
    loop {
        match act {
            Action::Read => {
                let (len, took) = source();
                reads += 1;
                now += took;
                act = s.on_chunk(len, now);
            }
            Action::Wait(ns) => {
                now += ns;
                act = s.on_woke(now);
            }
            Action::Stop(reason) => return (s, reason, reads),
        }
    }
}

#[test]
fn instant_source_plays_every_frame() {
    let c = config(24, 1, 1024, 1);
    let (s, reason, _) = simulate(&c, 0, || (4 * 1024 * 1024, 0));
    assert_eq!(reason, StopReason::TimeLimit);
    assert_eq!(s.total, 24);
    assert_eq!(s.fails, 0);
    assert_eq!(s.phase, Phase::Done);
}

#[test]
fn instant_small_chunks_play_every_frame() {
    let c = config(24, 1, 1024, 2);
    let (s, reason, _) = simulate(&c, 5 * MS, || (100, 0));
    assert_eq!(reason, StopReason::TimeLimit);
    assert_eq!(s.total, 48);
    assert_eq!(s.fails, 0);
}

#[test]
fn slow_source_misses_every_frame() {
    let c = config(24, 1, 1024, 1);
    let (s, reason, _) = simulate(&c, 0, || (1024, 50 * MS));
    assert_eq!(reason, StopReason::TimeLimit);
    assert!(s.total > 0);
    assert_eq!(s.fails, s.total);
    assert_eq!(s.total, 20);
}

#[test]
fn slow_reads_stop_at_first_chunk_past_deadline() {
    let c = config(24, 1, 1024, 1);
    let (mut s, act) = Session::start(&c, 0);
    assert_eq!(act, Action::Read);
    assert_eq!(s.need, 1024);
    assert_eq!(s.on_chunk(100, 30 * MS), Action::Read);
    assert_eq!(s.need, 924);
    assert_eq!(s.fails, 0);
    // this read ends past the 41.67 ms budget: the frame is a miss and no
    // further read is asked for
    assert_eq!(s.on_chunk(100, 60 * MS), Action::Wait(0));
    assert_eq!(s.fails, 1);
    assert_eq!(s.phase, Phase::Pacing);
    // the next frame starts with a fresh quota
    assert_eq!(s.on_woke(60 * MS), Action::Read);
    assert_eq!(s.index, 1);
    assert_eq!(s.need, 1024);
    assert_eq!(s.total, 2);
}

#[test]
fn exhausted_source_ends_with_time_left() {
    let c = config(24, 1, 1024, 60);
    let (mut s, act) = Session::start(&c, 0);
    assert_eq!(act, Action::Read);
    assert_eq!(s.on_chunk(10, 1), Action::Read);
    assert_eq!(s.on_chunk(0, 2), Action::Stop(StopReason::EndOfStream));
    assert_eq!(s.total, 1);
    assert_eq!(s.fails, 0);
    assert_eq!(s.phase, Phase::Done);
}

#[test]
fn exhausted_source_ends_after_deadline_too() {
    let c = config(24, 1, 1024, 60);
    let (mut s, _) = Session::start(&c, 0);
    assert_eq!(s.on_chunk(0, 500 * MS), Action::Stop(StopReason::EndOfStream));
    assert_eq!(s.fails, 1);
    assert_eq!(s.total, 1);
}

#[test]
fn file_of_two_frames_ends_by_end_of_stream() {
    let c = config(24, 1, 1024, 60);
    let mut left = 2 * 1024;
    let (s, reason, _) = simulate(&c, 0, || {
        let n = left;
        left = 0;
        (n, 0)
    });
    assert_eq!(reason, StopReason::EndOfStream);
    assert_eq!(s.total, 2);
    assert_eq!(s.fails, 0);
}

#[test]
fn file_of_two_frames_read_frame_by_frame() {
    let c = config(24, 1, 1024, 60);
    let mut left: usize = 2 * 1024;
    let (s, reason, reads) = simulate(&c, 0, || {
        let n = left.min(1024);
        left -= n;
        (n, MS)
    });
    assert_eq!(reason, StopReason::EndOfStream);
    assert_eq!(s.total, 2);
    assert_eq!(reads, 3);
}

#[test]
fn expired_final_frame_misses_without_reading() {
    let c = config(24, 1, 1024, 2);
    let (mut s, mut act) = Session::start(&c, 0);
    let mut now = 0;
    // every read takes 45 ms, so frame 23 begins past the end of the second
    while s.index < 23 {
        assert_eq!(act, Action::Read);
        now += 45 * MS;
        assert_eq!(s.on_chunk(1024, now), Action::Wait(0));
        act = s.on_woke(now);
    }
    assert_eq!(now, 23 * 45 * MS);
    assert!(s.budget < 0);
    assert_eq!(act, Action::Wait(0));
    assert_eq!(s.fails, 24);
    assert_eq!(s.total, 24);
    // the cycle wraps and a new second starts now
    assert_eq!(s.on_woke(now), Action::Read);
    assert_eq!(s.index, 0);
    assert_eq!(s.second_start, now);
    assert_eq!(s.budget, 41_666_666);
}

#[test]
fn final_frame_budget_absorbs_rounding() {
    let c = config(24, 1, 1024, 5);
    let (mut s, _) = Session::start(&c, 0);
    let mut now = 0;
    assert_eq!(s.on_chunk(1 << 20, now), Action::Wait(41_666_666));
    for _ in 0..22 {
        now += 41_666_666;
        assert!(matches!(s.on_woke(now), Action::Wait(41_666_666)));
    }
    now += 41_666_666;
    assert_eq!(s.on_woke(now), Action::Wait(1_000_000_000 - 23 * 41_666_666));
    assert_eq!(s.index, 23);
}

#[test]
fn credit_covers_later_frames() {
    let c = config(24, 1, 1000, 5);
    let (mut s, _) = Session::start(&c, 0);
    assert_eq!(s.on_chunk(2500, 0), Action::Wait(41_666_666));
    assert_eq!(s.credit, 1500);
    assert_eq!(s.on_woke(41_666_666), Action::Wait(41_666_666));
    assert_eq!(s.credit, 500);
    assert_eq!(s.on_woke(83_333_332), Action::Read);
    assert_eq!(s.credit, 0);
    assert_eq!(s.need, 500);
}

#[test]
fn fractional_rate_reads_short_last_frame() {
    let c = config(23976, 1000, 1000, 5);
    let (mut s, _) = Session::start(&c, 0);
    let mut act = s.on_chunk(1000, 0);
    assert_eq!(act, Action::Read);
    let mut now = 0;
    while s.index < 23 {
        if let Action::Wait(ns) = act {
            now += ns;
            act = s.on_woke(now);
        } else {
            act = s.on_chunk(1000, now);
        }
    }
    // the frame before left a whole chunk of credit; the short frame takes
    // 976 bytes of it
    assert!(matches!(act, Action::Wait(_)));
    assert_eq!(s.credit, 24);
}

#[test]
fn session_end_time_follows_limit() {
    let c = config(24, 1, 1024, 3);
    let (s, _) = Session::start(&c, 7);
    assert_eq!(s.end_ns, 3_000_000_007);
    assert_eq!(s.total, 1);
}

#[test]
fn sessions_started_apart_play_alike() {
    let c = config(24, 1, 1024, 1);
    let (a, _, _) = simulate(&c, 0, || (1 << 22, 0));
    let (b, _, _) = simulate(&c, 10 * MS, || (1 << 22, 0));
    let (d, _, _) = simulate(&c, 41 * MS, || (1 << 22, MS / 2));
    assert!(a.total.abs_diff(b.total) <= 1);
    assert!(a.total.abs_diff(d.total) <= 1);
}
