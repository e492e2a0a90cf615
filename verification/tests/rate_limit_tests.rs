use web3_proxy::rate_limit::DeferredRateLimitResult;
use web3_proxy::rate_limit::DeferredRateLimiter;
use web3_proxy::rate_limit::RemoteRateLimitResult;
use web3_proxy::rate_limit::ThrottleStep;

const KEY: u64 = 7;

fn limiter(max: u64) -> DeferredRateLimiter {
    DeferredRateLimiter::new(100, "ip", 60, max)
}

#[test]
fn zero_cap_denies_forever() {
    let mut drl = limiter(100);
    let r = drl.throttle(KEY, Some(0), 1, 0, RemoteRateLimitResult::Allowed(1));
    assert_eq!(r, DeferredRateLimitResult::RetryNever);
    // nothing was recorded for the key
    assert_eq!(drl.local_count(KEY), None);
}

#[test]
fn initializer_seeds_from_remote() {
    let mut drl = limiter(100);
    let r = drl.throttle(KEY, None, 1, 0, RemoteRateLimitResult::Allowed(50));
    assert_eq!(r, DeferredRateLimitResult::Allowed);
    assert_eq!(drl.local_count(KEY), Some(50));
}

#[test]
fn initializer_reports_remote_retry_at() {
    let mut drl = limiter(100);
    let r = drl.throttle(KEY, None, 1, 0, RemoteRateLimitResult::RetryAt(120, 101));
    assert_eq!(r, DeferredRateLimitResult::RetryAt(120));
    assert_eq!(drl.local_count(KEY), Some(101));
}

#[test]
fn ten_callers_share_one_initialization() {
    // one initializer hits the remote and seeds 50; the other nine apply
    // their increments locally and defer their remote calls, whose
    // replies here all fail and so change nothing
    let mut drl = limiter(100);
    let r = drl.throttle(KEY, None, 1, 0, RemoteRateLimitResult::Allowed(50));
    assert_eq!(r, DeferredRateLimitResult::Allowed);
    for _ in 0..9 {
        let r = drl.throttle(KEY, None, 1, 0, RemoteRateLimitResult::Error);
        assert_eq!(r, DeferredRateLimitResult::Allowed);
    }
    assert_eq!(drl.local_count(KEY), Some(59));
}

#[test]
fn at_most_max_are_allowed() {
    // cap 5 and a healthy initialization: of ten calls, exactly 5 get
    // through in the period
    let mut drl = limiter(5);
    let mut allowed = 0;
    let r = drl.throttle(KEY, None, 1, 10, RemoteRateLimitResult::Allowed(1));
    if r == DeferredRateLimitResult::Allowed {
        allowed += 1;
    }
    for _ in 0..9 {
        match drl.throttle(KEY, None, 1, 10, RemoteRateLimitResult::Error) {
            DeferredRateLimitResult::Allowed => allowed += 1,
            DeferredRateLimitResult::RetryAt(t) => assert_eq!(t, 60),
            DeferredRateLimitResult::RetryNever => panic!("cap is not zero"),
        }
    }
    assert_eq!(allowed, 5);
}

#[test]
fn remote_outage_fails_open() {
    // while the local counter has room, a dead remote never blocks anyone
    let mut drl = limiter(1000);
    for _ in 0..50 {
        let r = drl.throttle(KEY, None, 1, 0, RemoteRateLimitResult::Error);
        assert_eq!(r, DeferredRateLimitResult::Allowed);
    }
}

#[test]
fn local_counter_is_monotone() {
    let mut drl = limiter(1000);
    drl.throttle(KEY, None, 1, 0, RemoteRateLimitResult::Error);
    let mut prev = drl.local_count(KEY).unwrap();
    for _ in 0..20 {
        drl.throttle(KEY, None, 3, 0, RemoteRateLimitResult::Error);
        let now = drl.local_count(KEY).unwrap();
        assert!(now >= prev);
        prev = now;
    }
    // a remote reply may replace the count outright
    drl.throttle_remote_reply(KEY, RemoteRateLimitResult::Allowed(9999));
    assert_eq!(drl.local_count(KEY), Some(9999));
}

#[test]
fn overshoot_denies_without_remote_and_keeps_count() {
    let mut drl = limiter(3);
    drl.throttle(KEY, None, 1, 0, RemoteRateLimitResult::Allowed(3));
    // post-increment 4 > 3: denied until the next period boundary; the
    // counter is not rolled back
    let r = drl.throttle(KEY, None, 1, 130, RemoteRateLimitResult::Error);
    assert_eq!(r, DeferredRateLimitResult::RetryAt(180));
    assert_eq!(drl.local_count(KEY), Some(4));
}

#[test]
fn near_cap_waits_on_remote() {
    let mut drl = limiter(10);
    drl.throttle(KEY, None, 1, 0, RemoteRateLimitResult::Allowed(9));
    // post-increment 10 is over 99% of the cap: the remote decides
    let step = drl.throttle_check(KEY, None, 1, 0);
    assert_eq!(step, ThrottleStep::SyncRemote);
    let r = drl.throttle_remote_reply(KEY, RemoteRateLimitResult::RetryAt(60, 11));
    assert_eq!(r, DeferredRateLimitResult::RetryAt(60));
    assert_eq!(drl.local_count(KEY), Some(11));
}

#[test]
fn near_cap_remote_error_allows() {
    let mut drl = limiter(10);
    drl.throttle(KEY, None, 1, 0, RemoteRateLimitResult::Allowed(9));
    let r = drl.throttle(KEY, None, 1, 0, RemoteRateLimitResult::Error);
    assert_eq!(r, DeferredRateLimitResult::Allowed);
}

#[test]
fn fresh_key_needs_initialization() {
    let mut drl = limiter(10);
    assert_eq!(drl.throttle_check(KEY, None, 1, 0), ThrottleStep::NeedInit);
    let r = drl.throttle_init(KEY, RemoteRateLimitResult::Allowed(1));
    assert_eq!(r, DeferredRateLimitResult::Allowed);
    assert_eq!(drl.throttle_check(KEY, None, 1, 0), ThrottleStep::AllowedDeferred);
}

#[test]
fn cap_override_wins_over_default() {
    let mut drl = limiter(1000);
    drl.throttle(KEY, Some(2), 1, 0, RemoteRateLimitResult::Allowed(2));
    let r = drl.throttle(KEY, Some(2), 1, 0, RemoteRateLimitResult::Error);
    assert_eq!(r, DeferredRateLimitResult::RetryAt(60));
}

#[test]
fn bounded_cache_evicts_oldest_key() {
    let mut drl = DeferredRateLimiter::new(1, "ip", 60, 100);
    drl.throttle(1, None, 1, 0, RemoteRateLimitResult::Allowed(5));
    drl.throttle(2, None, 1, 0, RemoteRateLimitResult::Allowed(6));
    assert_eq!(drl.local_count(1), None);
    assert_eq!(drl.local_count(2), Some(6));
}

#[test]
fn next_period_is_the_following_boundary() {
    let drl = limiter(10);
    assert_eq!(drl.next_period(0), 60);
    assert_eq!(drl.next_period(59), 60);
    assert_eq!(drl.next_period(60), 120);
    assert_eq!(drl.next_period(125), 180);
}

#[test]
fn retry_never_from_remote_is_treated_as_deny() {
    let mut drl = limiter(10);
    let r = drl.throttle(KEY, None, 1, 0, RemoteRateLimitResult::RetryNever);
    assert_eq!(r, DeferredRateLimitResult::RetryNever);
}

#[test]
fn sync_threshold_is_configurable() {
    // at a 50% threshold the remote is consulted from half the cap up
    let mut drl = DeferredRateLimiter::new(100, "ip", 60, 10).with_sync_threshold(50);
    drl.throttle_init(KEY, RemoteRateLimitResult::Allowed(5));
    assert_eq!(drl.throttle_check(KEY, None, 1, 0), ThrottleStep::SyncRemote);

    let mut lax = DeferredRateLimiter::new(100, "ip", 60, 10);
    lax.throttle_init(KEY, RemoteRateLimitResult::Allowed(5));
    assert_eq!(lax.throttle_check(KEY, None, 1, 0), ThrottleStep::AllowedDeferred);
}
