use zenith::auth::is_rate_limited;
use zenith::rate_limit::{TokenBucket, FULL_NS, RATE_LIMIT_BURST, TOKEN_NS};

/// A burst of thirty gets through, and then ten a second.
#[test]
fn bursts_and_refills() {
    let mut bucket = TokenBucket::full(0);
    for _ in 0..RATE_LIMIT_BURST {
        assert!(bucket.check(0));
    }
    assert!(!bucket.check(0));
    assert!(!bucket.check(TOKEN_NS - 1));
    assert!(bucket.check(TOKEN_NS));
    assert!(!bucket.check(TOKEN_NS));
    let mut allowed = 0;
    for i in 0..1000u64 {
        if bucket.check(TOKEN_NS + i * 1_000_000) {
            allowed += 1;
        }
    }
    assert!(allowed <= 10);
}

/// A bucket that was idle for three seconds is as good as a new one.
#[test]
fn idle_buckets_can_go() {
    let mut bucket = TokenBucket::full(0);
    for _ in 0..RATE_LIMIT_BURST {
        bucket.check(5);
    }
    assert!(!bucket.is_idle(5 + FULL_NS - 1));
    assert!(bucket.is_idle(5 + FULL_NS));
    let mut fresh = TokenBucket::full(5 + FULL_NS);
    assert_eq!(bucket.check(5 + FULL_NS), fresh.check(5 + FULL_NS));
    assert_eq!(bucket, fresh);
}

/// A clock that goes back gives nothing.
#[test]
fn clocks_that_go_back_give_nothing() {
    let mut bucket = TokenBucket {
        credit_ns: 0,
        last_refill_ns: 1000,
    };
    assert!(!bucket.check(10));
    assert_eq!(bucket.credit_ns, 0);
}

/// Only POST requests are limited, and only while auth is on.
#[test]
fn limits_apply_to_commands() {
    assert!(is_rate_limited(true, true));
    assert!(!is_rate_limited(false, true));
    assert!(!is_rate_limited(true, false));
}
