use copilot_gate::bucket::NANOS_PER_SEC;
use copilot_gate::registry::{LimiterRegistry, CLEANUP_INTERVAL, MAX_IDLE_DURATION};

const SEC: u64 = NANOS_PER_SEC;

fn key(s: &str) -> String {
    s.to_string()
}

#[test]
fn burst_of_five_then_one_refill() {
    let mut r = LimiterRegistry::new();
    for _ in 0..5 {
        assert!(r.check_at(key("a"), 1, 5, 0));
    }
    assert!(!r.check_at(key("a"), 1, 5, SEC / 2));
    assert!(r.check_at(key("a"), 1, 5, SEC + SEC / 5));
    assert!(!r.check_at(key("a"), 1, 5, SEC + SEC / 5));
}

#[test]
fn admission_bound_per_key() {
    let mut r = LimiterRegistry::new();
    for _ in 0..7 {
        assert!(r.check_at(key("x"), 60, 7, 10));
    }
    assert!(!r.check_at(key("x"), 60, 7, 10));
    // Another key has its own bucket.
    assert!(r.check_at(key("y"), 60, 7, 10));
}

#[test]
fn first_writer_wins() {
    let mut r = LimiterRegistry::new();
    assert!(r.check_at(key("k"), 10, 3, 0));
    assert!(r.check_at(key("k"), 1, 100, 0));
    assert!(r.check_at(key("k"), 1, 100, 0));
    assert!(!r.check_at(key("k"), 1, 100, 0));
    // One second is a full interval for the second call's parameters, not
    // for the stored ones.
    assert!(!r.check_at(key("k"), 1, 100, 2 * SEC));
    assert!(r.check_at(key("k"), 1, 100, 10 * SEC));
}

#[test]
fn eviction_resets_state() {
    let mut r = LimiterRegistry::new();
    assert!(r.check_at(key("a"), 100, 1, 0));
    assert!(!r.check_at(key("a"), 100, 1, 0));
    let later = MAX_IDLE_DURATION + SEC;
    assert!(r.check_at(key("b"), 100, 1, later));
    assert_eq!(r.get_rate_limit_stats().active_limiters, 1);
    assert!(r.check_at(key("a"), 100, 1, later));
    assert_eq!(r.get_rate_limit_stats().active_limiters, 2);
}

#[test]
fn sweep_waits_for_cleanup_interval() {
    let mut r = LimiterRegistry::new();
    assert!(r.check_at(key("a"), 100, 1, 0));
    let t = MAX_IDLE_DURATION + SEC;
    r.cleanup_expired_limiters(t);
    assert_eq!(r.get_rate_limit_stats().active_limiters, 0);
    assert!(r.check_at(key("b"), 100, 1, t));
    assert!(r.check_at(key("a"), 100, 1, t + 1));
    // "b" has been idle too long, but the last sweep was too recent.
    let t2 = t + MAX_IDLE_DURATION + SEC;
    assert!(CLEANUP_INTERVAL < MAX_IDLE_DURATION);
    r.cleanup_expired_limiters(t + CLEANUP_INTERVAL - 1);
    assert_eq!(r.get_rate_limit_stats().active_limiters, 2);
    r.cleanup_expired_limiters(t2);
    assert_eq!(r.get_rate_limit_stats().active_limiters, 0);
}

#[test]
fn never_admitted_key_is_not_evicted() {
    let mut r = LimiterRegistry::new();
    assert!(!r.check_at(key("z"), 1, 0, 0));
    r.cleanup_expired_limiters(10 * MAX_IDLE_DURATION);
    assert_eq!(r.get_rate_limit_stats().active_limiters, 1);
}

#[test]
fn reset_is_immediate() {
    let mut r = LimiterRegistry::new();
    assert!(r.check_at(key("k"), 30, 1, 0));
    assert!(!r.check_at(key("k"), 30, 1, 0));
    assert!(r.reset_rate_limit(&key("k")));
    assert_eq!(r.get_rate_limit_stats().active_limiters, 0);
    assert!(r.check_at(key("k"), 30, 1, 0));
}

#[test]
fn reset_of_unknown_key() {
    let mut r = LimiterRegistry::new();
    assert!(r.check_at(key("k"), 30, 1, 0));
    assert!(!r.reset_rate_limit(&key("other")));
    assert_eq!(r.get_rate_limit_stats().active_limiters, 1);
}

#[test]
fn stats_count_keys() {
    let mut r = LimiterRegistry::new();
    assert_eq!(r.get_rate_limit_stats().active_limiters, 0);
    assert!(r.check_at(key("a"), 1, 2, 0));
    assert!(r.check_at(key("b"), 1, 2, 0));
    assert!(r.check_at(key("a"), 1, 2, 0));
    assert_eq!(r.get_rate_limit_stats().active_limiters, 2);
}

#[test]
fn clock_check_uses_default_burst() {
    let mut r = LimiterRegistry::new();
    for _ in 0..5 {
        assert!(r.check_rate_limit(key("c"), 3600, None));
    }
    assert!(!r.check_rate_limit(key("c"), 3600, None));
    assert!(r.check_rate_limit(key("d"), 3600, Some(1)));
    assert!(!r.check_rate_limit(key("d"), 3600, Some(1)));
}

#[test]
fn zero_interval_key_is_unlimited() {
    let mut r = LimiterRegistry::new();
    for _ in 0..50 {
        assert!(r.check_at(key("free"), 0, 1, 0));
    }
}
