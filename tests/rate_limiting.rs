use ingest_gateway::rate_limiter::{RateLimitExceeded, RateLimiter, DEFAULT_WINDOW_MS};

const A: u128 = 0x1111;
const B: u128 = 0x2222;

#[test]
fn limit_five_admits_five_then_refuses_then_recovers() {
    let mut rl = RateLimiter::new();
    for t in 0..5i64 {
        assert_eq!(rl.check_rate_limit_at(A, 5, 60_000, 1_000 + t), Ok(()));
    }
    assert_eq!(rl.check_rate_limit_at(A, 5, 60_000, 1_005), Err(RateLimitExceeded));
    // every stored timestamp is older than now - window
    assert_eq!(rl.check_rate_limit_at(A, 5, 60_000, 1_004 + 60_001), Ok(()));
}

#[test]
fn refused_check_records_nothing() {
    let mut rl = RateLimiter::new();
    assert_eq!(rl.check_rate_limit_at(A, 1, 1_000, 0), Ok(()));
    assert_eq!(rl.check_rate_limit_at(A, 1, 1_000, 500), Err(RateLimitExceeded));
    // the refused check at 500 was not stored, so at 1_001 the window is empty again
    assert_eq!(rl.check_rate_limit_at(A, 1, 1_000, 1_001), Ok(()));
}

#[test]
fn stale_timestamps_stop_counting_as_clock_advances() {
    let mut rl = RateLimiter::new();
    assert_eq!(rl.check_rate_limit_at(A, 2, 1_000, 0), Ok(()));
    assert_eq!(rl.check_rate_limit_at(A, 2, 1_000, 500), Ok(()));
    assert_eq!(rl.check_rate_limit_at(A, 2, 1_000, 900), Err(RateLimitExceeded));
    // at 1_001 the stamp at 0 is older than 1_001 - 1_000 and no longer counts
    assert_eq!(rl.check_rate_limit_at(A, 2, 1_000, 1_001), Ok(()));
    // at 1_500 the stamp at 500 is exactly on the window edge and still counts
    assert_eq!(rl.check_rate_limit_at(A, 2, 1_000, 1_500), Err(RateLimitExceeded));
    assert_eq!(rl.check_rate_limit_at(A, 2, 1_000, 1_501), Ok(()));
}

#[test]
fn exhausting_one_principal_leaves_another_alone() {
    let mut rl = RateLimiter::new();
    for t in 0..3i64 {
        assert_eq!(rl.check_rate_limit_at(A, 3, 60_000, t), Ok(()));
    }
    assert_eq!(rl.check_rate_limit_at(A, 3, 60_000, 3), Err(RateLimitExceeded));
    assert_eq!(rl.check_rate_limit_at(A, 3, 60_000, 4), Err(RateLimitExceeded));
    assert_eq!(rl.check_rate_limit_at(B, 3, 60_000, 5), Ok(()));
    assert_eq!(rl.check_rate_limit_at(B, 3, 60_000, 6), Ok(()));
}

#[test]
fn two_per_second_scenario() {
    let mut rl = RateLimiter::new();
    let start: i64 = 1_700_000_000_000;
    assert_eq!(rl.check_rate_limit_at(A, 2, 1_000, start), Ok(()));
    assert_eq!(rl.check_rate_limit_at(A, 2, 1_000, start + 1), Ok(()));
    assert_eq!(rl.check_rate_limit_at(A, 2, 1_000, start + 2), Err(RateLimitExceeded));
    assert_eq!(rl.check_rate_limit_at(A, 2, 1_000, start + 2 + 1_100), Ok(()));
}

#[test]
fn non_positive_limit_refuses_everything() {
    let mut rl = RateLimiter::new();
    assert_eq!(rl.check_rate_limit_at(A, 0, 1_000, 0), Err(RateLimitExceeded));
    assert_eq!(rl.check_rate_limit_at(A, -3, 1_000, 0), Err(RateLimitExceeded));
    assert_eq!(rl.principal_count(), 0);
}

#[test]
fn extreme_times_do_not_overflow() {
    let mut rl = RateLimiter::new();
    assert_eq!(rl.check_rate_limit_at(A, 1, i64::MAX, i64::MIN), Ok(()));
    assert_eq!(rl.check_rate_limit_at(A, 1, i64::MAX, i64::MIN + 5), Err(RateLimitExceeded));
    // at i64::MAX the window starts at 0, and the stamp at i64::MIN is stale
    assert_eq!(rl.check_rate_limit_at(A, 1, i64::MAX, i64::MAX), Ok(()));
}

#[test]
fn sweep_forgets_idle_principals() {
    let mut rl = RateLimiter::new();
    assert_eq!(rl.check_rate_limit_at(A, 5, 1_000, 0), Ok(()));
    assert_eq!(rl.check_rate_limit_at(B, 5, 1_000, 800), Ok(()));
    assert_eq!(rl.principal_count(), 2);
    rl.evict_idle(1_500, 1_000);
    assert_eq!(rl.principal_count(), 1);
    rl.evict_idle(2_000, 1_000);
    assert_eq!(rl.principal_count(), 0);
}

#[test]
fn live_clock_check_uses_one_minute_window() {
    assert_eq!(DEFAULT_WINDOW_MS, 60_000);
    let mut rl = RateLimiter::new();
    assert_eq!(rl.check_rate_limit(A, 1), Ok(()));
    assert_eq!(rl.check_rate_limit(A, 1), Err(RateLimitExceeded));
    assert_eq!(rl.check_rate_limit(B, 1), Ok(()));
}

#[test]
fn live_clock_check_with_given_window() {
    let mut rl = RateLimiter::new();
    assert_eq!(rl.check_rate_limit_within(A, 2, 3_600_000), Ok(()));
    assert_eq!(rl.check_rate_limit_within(A, 2, 3_600_000), Ok(()));
    assert_eq!(rl.check_rate_limit_within(A, 2, 3_600_000), Err(RateLimitExceeded));
}
