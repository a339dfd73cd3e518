use tcpping::probe::{loss_tenths, Outcome, ProbeRun};

fn run_of(latencies: &[u32], failures: u32) -> ProbeRun {
    let mut outcomes: Vec<Outcome> = latencies.iter().map(|&l| Outcome::Connected(l)).collect();
    outcomes.extend((0..failures).map(|_| Outcome::Failed));
    let mut run = ProbeRun::new();
    run.record_all(&outcomes);
    run
}

#[test]
fn exact_summary_values() {
    let s = run_of(&[1000, 2000, 4000], 1).summarize().unwrap();
    assert_eq!(s.packets_sent, 4);
    assert_eq!(s.packets_received, 3);
    assert_eq!(s.loss_tenths, 250);
    assert_eq!(s.min_us, 1000);
    assert_eq!(s.max_us, 4000);
    assert_eq!(s.total_us, 7000);
    // 3 * (1 + 4 + 16) * 10^6 - 7000^2
    assert_eq!(s.spread, 14_000_000);
    let stddev_us = (s.spread as f64).sqrt() / 3.0;
    assert!((stddev_us - 1247.219).abs() < 0.001);
}

#[test]
fn constant_latencies_have_zero_spread() {
    let s = run_of(&[5000, 5000, 5000, 5000], 0).summarize().unwrap();
    assert_eq!(s.spread, 0);
    assert_eq!(s.total_us / 4, 5000);
}

#[test]
fn varying_latencies_have_positive_spread() {
    let s = run_of(&[5000, 5001], 0).summarize().unwrap();
    assert!(s.spread > 0);
    assert_eq!(s.spread, 1);
}

#[test]
fn mean_between_min_and_max() {
    let s = run_of(&[900, 30, 4000, 77, 1200], 2).summarize().unwrap();
    let n = s.packets_received as u64;
    assert_eq!(s.min_us, 30);
    assert_eq!(s.max_us, 4000);
    assert!(n * s.min_us as u64 <= s.total_us && s.total_us <= n * s.max_us as u64);
}

#[test]
fn largest_samples_do_not_overflow() {
    let s = run_of(&[u32::MAX, u32::MAX, 0], 0).summarize().unwrap();
    assert_eq!(s.total_us, 2 * u32::MAX as u64);
    let m = u32::MAX as u128;
    assert_eq!(s.spread, 3 * 2 * m * m - (2 * m) * (2 * m));
}

#[test]
fn loss_rate_extremes_and_rounding() {
    for sent in [1u32, 2, 3, 7, 1000, u32::MAX] {
        assert_eq!(loss_tenths(sent, sent), 0);
        assert_eq!(loss_tenths(sent, 0), 1000);
    }
    assert_eq!(loss_tenths(3, 1), 667);
    assert_eq!(loss_tenths(3, 2), 333);
    // exact ties go to the even tenth: 6.25% -> 6.2%, 18.75% -> 18.8%
    assert_eq!(loss_tenths(16, 15), 62);
    assert_eq!(loss_tenths(16, 13), 188);
    assert_eq!(loss_tenths(8, 7), 125);
    assert_eq!(loss_tenths(7, 6), 143);
}

#[test]
fn no_success_no_summary() {
    assert!(run_of(&[], 3).summarize().is_none());
    assert!(run_of(&[], 0).summarize().is_none());
}
