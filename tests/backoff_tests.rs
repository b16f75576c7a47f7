use taskgraph::backoff::{BisectionBackoff, EmaBackoff, MAX_WAIT_MS, MIN_WAIT_MS};
use taskgraph::error::TaskError;

#[test]
fn fresh_controller_waits_at_the_midpoint() {
    let b = BisectionBackoff::new();
    assert_eq!((b.lower_ms, b.upper_ms, b.wait_ms), (100, 10_000, 5_050));
}

#[test]
fn success_streak_lowers_wait_and_narrows_interval() {
    let mut b = BisectionBackoff::new();
    let mut last = b.wait_ms;
    for _ in 0..5 {
        b.record_success();
        assert!(b.wait_ms <= last);
        last = b.wait_ms;
    }
    assert_eq!((b.lower_ms, b.upper_ms, b.wait_ms), (100, 5_050, 2_575));
    assert!(b.upper_ms - b.lower_ms < 10_000 - 100);
    assert_eq!(b.success_count, 5);
    assert_eq!(b.consecutive_successes, 0);
}

#[test]
fn failure_streak_raises_wait() {
    let mut b = BisectionBackoff::new();
    let mut last = b.wait_ms;
    for _ in 0..3 {
        assert_eq!(b.record_failure(), Ok(()));
        assert!(b.wait_ms >= last);
        last = b.wait_ms;
    }
    assert_eq!((b.lower_ms, b.upper_ms, b.wait_ms), (5_050, 10_000, 7_525));
    assert_eq!(b.total_fails, 3);
}

#[test]
fn backoff_exhausted_exactly_at_the_failure_cap() {
    let mut b = BisectionBackoff::new();
    for _ in 0..3 {
        assert_eq!(b.record_failure(), Ok(()));
    }
    for _ in 0..5 {
        b.record_success();
    }
    assert_eq!(b.total_fails, 0);
    for i in 1..=15 {
        let r = b.record_failure();
        if i < 10 {
            assert_eq!(r, Ok(()), "failure {i}");
        } else {
            assert_eq!(r, Err(TaskError::BackoffExhausted), "failure {i}");
        }
    }
}

#[test]
fn wait_stays_within_bounds() {
    let mut b = BisectionBackoff::new();
    for _ in 0..60 {
        b.record_success();
    }
    assert!(b.wait_time_ms() >= MIN_WAIT_MS);
    let mut b = BisectionBackoff::new();
    for round in 0..40 {
        if round % 9 == 8 {
            for _ in 0..5 {
                b.record_success();
            }
        } else {
            let _ = b.record_failure();
        }
        assert!(b.wait_time_ms() <= MAX_WAIT_MS);
    }
}

#[test]
fn ema_failure_moves_further_than_success() {
    let mut s = EmaBackoff::new();
    let mut f = EmaBackoff::new();
    s.record_success(1_000);
    assert_eq!(f.record_failure(1_000), Ok(()));
    assert_eq!(s.wait_time_ms(), 4_645);
    assert_eq!(f.wait_time_ms(), 3_025);
    assert!(f.estimate_ms.abs_diff(1_000) < s.estimate_ms.abs_diff(1_000));
}

#[test]
fn ema_clamps_samples_and_gives_up_after_a_failure_run() {
    let mut e = EmaBackoff::new();
    e.record_success(u64::MAX);
    assert_eq!(e.wait_time_ms(), (5_050 * 900 + 10_000 * 100) / 1_000);
    for _ in 0..9 {
        assert_eq!(e.record_failure(0), Ok(()));
    }
    assert_eq!(e.record_failure(0), Err(TaskError::BackoffExhausted));
    assert!(e.wait_time_ms() >= MIN_WAIT_MS);
}

#[test]
fn ema_failure_moves_even_across_the_smallest_gap() {
    let mut s = EmaBackoff::new();
    let mut f = EmaBackoff::new();
    s.record_success(5_051);
    assert_eq!(f.record_failure(5_051), Ok(()));
    assert_eq!(s.wait_time_ms(), 5_050);
    assert_eq!(f.wait_time_ms(), 5_051);
    let mut f = EmaBackoff::new();
    assert_eq!(f.record_failure(5_048), Ok(()));
    assert_eq!(f.wait_time_ms(), 5_049);
}

#[test]
fn failure_budget_counts_from_the_last_success_streak() {
    let mut b = BisectionBackoff::new();
    for _ in 0..9 {
        assert_eq!(b.record_failure(), Ok(()));
    }
    for _ in 0..4 {
        b.record_success();
    }
    assert_eq!(b.record_failure(), Err(TaskError::BackoffExhausted));
}
