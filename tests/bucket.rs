use copilot_gate::bucket::{elapsed_between, TokenBucket, DEFAULT_BURST, NANOS_PER_SEC};

const SEC: u64 = NANOS_PER_SEC;

#[test]
fn elapsed_saturates_at_zero() {
    assert_eq!(elapsed_between(10, 25), 15);
    assert_eq!(elapsed_between(25, 10), 0);
    assert_eq!(elapsed_between(7, 7), 0);
}

#[test]
fn new_bucket_is_full_with_default_burst() {
    let b = TokenBucket::new(1, 42);
    assert_eq!(DEFAULT_BURST, 5);
    assert_eq!(b.capacity, 5);
    assert_eq!(b.tokens, 5);
    assert_eq!(b.interval_secs, 1);
    assert_eq!(b.last_refill, 42);
    assert_eq!(b.last_request, None);
}

#[test]
fn bucket_admits_capacity_then_denies() {
    let mut b = TokenBucket::new_with_burst(1, 3, 0);
    assert!(b.check(0));
    assert!(b.check(0));
    assert!(b.check(0));
    assert!(!b.check(0));
    assert_eq!(b.tokens, 0);
    assert_eq!(b.last_request, Some(0));
}

#[test]
fn denial_changes_nothing() {
    let mut b = TokenBucket::new_with_burst(10, 1, 0);
    assert!(b.check(0));
    let before = b;
    assert!(!b.check(3 * SEC));
    assert_eq!(b, before);
}

#[test]
fn refill_after_denial_admits_one() {
    let mut b = TokenBucket::new_with_burst(2, 1, 0);
    assert!(b.check(0));
    assert!(!b.check(SEC));
    assert!(b.check(3 * SEC));
    assert_eq!(b.last_refill, 3 * SEC);
    assert!(!b.check(3 * SEC));
}

#[test]
fn refill_drops_partial_interval() {
    let mut b = TokenBucket::new_with_burst(1, 2, 0);
    assert!(b.check(0));
    assert!(b.check(0));
    // 1.5 intervals: one token, and the half interval is lost.
    assert!(b.check(SEC + SEC / 2));
    assert_eq!(b.last_refill, SEC + SEC / 2);
    // Another 0.9 interval: nothing accrues although 2.4 have passed in all.
    assert!(!b.check(2 * SEC + 4 * SEC / 10));
}

#[test]
fn tokens_never_exceed_capacity() {
    let mut b = TokenBucket::new_with_burst(1, 2, 0);
    assert!(b.check(0));
    assert!(b.check(0));
    assert!(b.check(1000 * SEC));
    assert_eq!(b.tokens, 1);
    assert_eq!(b.capacity, 2);
    assert!(b.check(1000 * SEC));
    assert!(!b.check(1000 * SEC));
}

#[test]
fn zero_interval_is_never_limited() {
    let mut b = TokenBucket::new_with_burst(0, 1, 0);
    for _ in 0..20 {
        assert!(b.check(0));
    }
    assert_eq!(b.tokens, 1);
}

#[test]
fn zero_capacity_always_denies() {
    let mut b = TokenBucket::new_with_burst(1, 0, 0);
    assert!(!b.check(0));
    assert!(!b.check(100 * SEC));
    assert_eq!(b.last_request, None);
}

#[test]
fn huge_interval_does_not_overflow() {
    let mut b = TokenBucket::new_with_burst(u64::MAX, 1, 0);
    assert!(b.check(0));
    assert!(!b.check(u64::MAX));
}

#[test]
fn expiry_counts_from_last_admitted_request() {
    let mut b = TokenBucket::new_with_burst(1, 1, 0);
    assert!(!b.is_expired(u64::MAX, 0));
    assert!(b.check(5 * SEC));
    assert!(!b.is_expired(7 * SEC, 2 * SEC));
    assert!(b.is_expired(7 * SEC + 1, 2 * SEC));
}
