use nyc_train_cal::inflight::InFlightCounter;
use nyc_train_cal::ratelimit::RateLimiter;

#[test]
fn fresh_client_burst_within_limit_all_admitted() {
    let mut limiter = RateLimiter::new(10, 20);
    for i in 0..20 {
        assert!(limiter.try_acquire(7, 1000), "request {} within burst was rejected", i);
    }
}

#[test]
fn bursting_beyond_limit_rejected_within_window() {
    let mut limiter = RateLimiter::new(10, 20);
    let mut rejected = 0;
    for _ in 0..21 {
        if !limiter.try_acquire(7, 1000) {
            rejected += 1;
        }
    }
    assert_eq!(rejected, 1);
}

#[test]
fn paced_client_is_never_rejected() {
    // 10 tokens per second = one full token per 100 ms; a client pacing at
    // that spacing stays strictly within the sustained rate.
    let mut limiter = RateLimiter::new(10, 20);
    for i in 0..200u64 {
        assert!(limiter.try_acquire(7, 1000 + i * 100), "paced request {} was rejected", i);
    }
}

#[test]
fn tokens_refill_after_rejection() {
    let mut limiter = RateLimiter::new(10, 20);
    for _ in 0..20 {
        limiter.try_acquire(7, 1000);
    }
    assert!(!limiter.try_acquire(7, 1000));
    // 100 ms later one token has refilled
    assert!(limiter.try_acquire(7, 1100));
    assert!(!limiter.try_acquire(7, 1100));
}

#[test]
fn refill_is_capped_at_burst_ceiling() {
    let mut limiter = RateLimiter::new(10, 20);
    for _ in 0..20 {
        limiter.try_acquire(7, 0);
    }
    // a long idle period refills to the ceiling, not beyond it
    let mut admitted = 0;
    for _ in 0..25 {
        if limiter.try_acquire(7, 1_000_000) {
            admitted += 1;
        }
    }
    assert_eq!(admitted, 20);
}

#[test]
fn client_buckets_are_independent() {
    let mut limiter = RateLimiter::new(10, 20);
    for _ in 0..20 {
        limiter.try_acquire(1, 0);
    }
    assert!(!limiter.try_acquire(1, 0));
    assert!(limiter.try_acquire(2, 0));
}

#[test]
fn counter_bounded_by_ceiling() {
    let mut counter = InFlightCounter::new(3);
    assert!(counter.try_enter());
    assert!(counter.try_enter());
    assert!(counter.try_enter());
    assert!(!counter.try_enter());
    assert_eq!(counter.active(), 3);
    assert_eq!(counter.ceiling(), 3);
}

#[test]
fn counter_drains_to_zero_without_leaking() {
    let mut counter = InFlightCounter::new(3);
    let mut entered = 0;
    // more attempts than the ceiling allows: admitted concurrency stays bounded
    for _ in 0..5 {
        if counter.try_enter() {
            entered += 1;
        }
    }
    assert_eq!(entered, 3);
    assert!(counter.active() <= counter.ceiling());
    for _ in 0..entered {
        counter.exit();
    }
    assert_eq!(counter.active(), 0);
}

#[test]
fn slot_frees_after_exit() {
    let mut counter = InFlightCounter::new(1);
    assert!(counter.try_enter());
    assert!(!counter.try_enter());
    counter.exit();
    assert!(counter.try_enter());
    counter.exit();
    assert_eq!(counter.active(), 0);
}

#[test]
fn idle_buckets_are_garbage_collected_safely() {
    let mut limiter = RateLimiter::new(10, 20);
    // client 1 drains its burst at t=0, then goes idle
    for _ in 0..20 {
        assert!(limiter.try_acquire(1, 0));
    }
    assert!(!limiter.try_acquire(1, 0));
    // client 2 spends one token much later
    assert!(limiter.try_acquire(2, 50_000));
    // collect buckets idle since before t=10_000: client 1's goes, 2's stays
    limiter.remove_idle(10_000);
    // a collected client returns as new, and a fresh bucket starts full
    assert!(limiter.try_acquire(1, 0));
    // the surviving bucket kept its consumed state: 19 tokens remain
    for _ in 0..19 {
        assert!(limiter.try_acquire(2, 50_000));
    }
    assert!(!limiter.try_acquire(2, 50_000));
}
