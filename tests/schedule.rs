use vio::schedule::FrameRate;

fn rate(num: u64, den: u64) -> FrameRate {
    FrameRate::new(num, den).unwrap()
}

fn cycle_quotas(r: &FrameRate, frame_size: usize) -> Vec<usize> {
    (0..r.cycle_len()).map(|i| r.byte_quota(frame_size, i)).collect()
}

#[test]
fn new_rejects_unusable_rates() {
    assert!(FrameRate::new(0, 1).is_none());
    assert!(FrameRate::new(24, 0).is_none());
    assert!(FrameRate::new(24, 1_000_000_001).is_none());
    assert_eq!(FrameRate::new(24, 1), Some(FrameRate { num: 24, den: 1 }));
}

#[test]
fn integral_rate_has_whole_frames() {
    let r = rate(24, 1);
    assert_eq!(r.cycle_len(), 24);
    let q = cycle_quotas(&r, 1024);
    assert!(q.iter().all(|&b| b == 1024));
    assert_eq!(q.iter().sum::<usize>(), 24 * 1024);
}

#[test]
fn integral_rate_written_with_fraction() {
    let r = rate(240, 10);
    assert_eq!(r.cycle_len(), 24);
    assert!(cycle_quotas(&r, 1000).iter().all(|&b| b == 1000));
}

#[test]
fn fractional_rate_has_one_short_frame() {
    let r = rate(23976, 1000);
    assert_eq!(r.cycle_len(), 24);
    let q = cycle_quotas(&r, 1_000_000);
    let short: Vec<usize> = (0..q.len()).filter(|&i| q[i] < 1_000_000).collect();
    assert_eq!(short, vec![23]);
    assert_eq!(q[23], 976_000);
    assert_eq!(q.iter().sum::<usize>(), 23_976_000);
}

#[test]
fn cycle_sum_truncates_to_a_byte() {
    let r = rate(23976, 1000);
    let q = cycle_quotas(&r, 1023);
    // 1023 * 23.976 = 24527.448
    assert_eq!(q[23], 998);
    assert_eq!(q.iter().sum::<usize>(), 24527);
}

#[test]
fn rate_below_one_frame_per_second() {
    let r = rate(1, 2);
    assert_eq!(r.cycle_len(), 1);
    assert_eq!(r.byte_quota(100, 0), 50);
    assert_eq!(r.nominal_frame_ns(), 2_000_000_000);
}

#[test]
fn nominal_budget_truncates() {
    assert_eq!(rate(24, 1).nominal_frame_ns(), 41_666_666);
    assert_eq!(rate(23976, 1000).nominal_frame_ns(), 41_708_375);
}

#[test]
fn last_frame_gets_rest_of_second() {
    let r = rate(24, 1);
    assert_eq!(r.time_budget(0, 0), 41_666_666);
    assert_eq!(r.time_budget(22, 999_000_000), 41_666_666);
    assert_eq!(r.time_budget(23, 958_333_318), 41_666_682);
    assert_eq!(r.time_budget(23, 1_000_000_000), 0);
    assert_eq!(r.time_budget(23, 1_200_000_000), -200_000_000);
}

#[test]
fn next_index_wraps_once_per_cycle() {
    let r = rate(23976, 1000);
    let mut i = 0;
    let mut wraps = 0;
    for step in 1..=48u64 {
        i = r.next_index(i);
        if i == 0 {
            wraps += 1;
            assert_eq!(step % 24, 0);
        }
        assert_eq!(i, step % 24);
    }
    assert_eq!(wraps, 2);
}

#[test]
fn single_frame_cycle_always_wraps() {
    let r = rate(1, 1);
    assert_eq!(r.cycle_len(), 1);
    assert_eq!(r.next_index(0), 0);
}
