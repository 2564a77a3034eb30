use shadow_backend::artemis::{ArtemisRateLimiter, RateLimitEntry, RateLimitExceeded};

#[test]
fn two_per_minute_scenario() {
    let mut limiter = ArtemisRateLimiter::with_window(2, 60);
    let key = "ip:1.2.3.4";
    assert_eq!(limiter.check_rate_limit_at(key, 0), Ok(()));
    assert_eq!(limiter.check_rate_limit_at(key, 1_000), Ok(()));
    assert_eq!(
        limiter.check_rate_limit_at(key, 2_000),
        Err(RateLimitExceeded { retry_after: 58 })
    );
    assert_eq!(limiter.check_rate_limit_at(key, 61_000), Ok(()));
    // the new window counted that request as its first
    assert_eq!(limiter.check_rate_limit_at(key, 62_000), Ok(()));
    assert!(limiter.check_rate_limit_at(key, 63_000).is_err());
}

#[test]
fn full_window_rejects_with_bounded_wait() {
    let mut limiter = ArtemisRateLimiter::new(3);
    for t in 0..3u64 {
        assert_eq!(limiter.check_rate_limit_at("wallet:w", 100 + t), Ok(()));
    }
    match limiter.check_rate_limit_at("wallet:w", 200) {
        Err(e) => assert!(e.retry_after <= 60),
        Ok(()) => panic!("fourth check in the window was admitted"),
    }
}

#[test]
fn refusals_do_not_use_up_the_next_window() {
    let mut limiter = ArtemisRateLimiter::with_window(2, 10);
    assert!(limiter.check_rate_limit_at("k", 0).is_ok());
    assert!(limiter.check_rate_limit_at("k", 1).is_ok());
    for t in 2..50u64 {
        assert!(limiter.check_rate_limit_at("k", t * 100).is_err());
    }
    assert!(limiter.check_rate_limit_at("k", 10_001).is_ok());
    assert!(limiter.check_rate_limit_at("k", 10_002).is_ok());
    assert!(limiter.check_rate_limit_at("k", 10_003).is_err());
}

#[test]
fn keys_are_counted_apart() {
    let mut limiter = ArtemisRateLimiter::with_window(1, 60);
    assert!(limiter.check_rate_limit_at("a", 0).is_ok());
    assert!(limiter.check_rate_limit_at("b", 0).is_ok());
    assert!(limiter.check_rate_limit_at("a", 5).is_err());
}

#[test]
fn zero_limit_rejects_everything() {
    let mut limiter = ArtemisRateLimiter::with_window(0, 60);
    assert_eq!(
        limiter.check_rate_limit_at("k", 0),
        Err(RateLimitExceeded { retry_after: 60 })
    );
}

#[test]
fn reset_time_itself_still_belongs_to_the_window() {
    let mut limiter = ArtemisRateLimiter::with_window(1, 60);
    assert!(limiter.check_rate_limit_at("k", 0).is_ok());
    assert_eq!(
        limiter.check_rate_limit_at("k", 60_000),
        Err(RateLimitExceeded { retry_after: 0 })
    );
    assert!(limiter.check_rate_limit_at("k", 60_001).is_ok());
}

#[test]
fn many_stale_keys_are_swept_without_changing_decisions() {
    let mut limiter = ArtemisRateLimiter::with_window(1, 1);
    for i in 0..10_005u64 {
        let key = format!("ip:{}", i);
        assert!(limiter.check_rate_limit_at(&key, 0).is_ok());
    }
    // all windows above ran out at 1000 ms
    assert!(limiter.check_rate_limit_at("ip:0", 5_000).is_ok());
    assert!(limiter.check_rate_limit_at("ip:0", 5_001).is_err());
    assert!(limiter.check_rate_limit_at("ip:1", 5_001).is_ok());
}

#[test]
fn sweep_keeps_a_window_at_its_reset_time() {
    let mut limiter = ArtemisRateLimiter::with_window(1, 1);
    assert!(limiter.check_rate_limit_at("held", 0).is_ok());
    for i in 0..10_001u64 {
        let key = format!("wallet:{}", i);
        assert!(limiter.check_rate_limit_at(&key, 0).is_ok());
    }
    // the table is over the threshold, so this check sweeps first; the window of "held"
    // resets at 1000 ms and still counts then
    assert_eq!(
        limiter.check_rate_limit_at("held", 1_000),
        Err(RateLimitExceeded { retry_after: 0 })
    );
}

#[test]
fn live_clock_admits_first_request() {
    let mut limiter = ArtemisRateLimiter::new(60);
    assert!(limiter.check_rate_limit("ip:9.9.9.9").is_ok());
}

#[test]
fn client_key_prefers_wallet() {
    assert_eq!(ArtemisRateLimiter::get_client_key(Some("1.2.3.4"), Some("W1")), "wallet:W1");
    assert_eq!(ArtemisRateLimiter::get_client_key(Some("1.2.3.4"), None), "ip:1.2.3.4");
    assert_eq!(ArtemisRateLimiter::get_client_key(None, None), "unknown");
}

#[test]
fn window_entry_is_plain_data() {
    let e = RateLimitEntry { count: 2, reset_at: 60_000 };
    assert!(shadow_backend::artemis::window_is_live(&e, 59_999));
    assert!(shadow_backend::artemis::window_is_live(&e, 60_000));
    assert!(!shadow_backend::artemis::window_is_live(&e, 60_001));
}

#[test]
fn a_check_never_runs_before_the_latest_one() {
    let mut limiter = ArtemisRateLimiter::with_window(1, 60);
    assert!(limiter.check_rate_limit_at("a", 10_000).is_ok());
    // asked for at 5 s, the check runs at 10 s: the window resets at 70 s
    assert_eq!(
        limiter.check_rate_limit_at("a", 5_000),
        Err(RateLimitExceeded { retry_after: 60 })
    );
}
