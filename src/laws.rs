use vstd::prelude::*;

use crate::bucket::{elapsed, TokenBucket, NANOS_PER_SEC};
use crate::registry::{bucket_for, swept, sweep_due, LimiterRegistry, MAX_IDLE_DURATION};

verus! {

/// The bucket after `n` consecutive checks, all at `now`.
pub open spec fn checked_times(b: TokenBucket, now: u64, n: nat) -> TokenBucket
    decreases n,
{
    if n == 0 {
        b
    } else {
        checked_times(b, now, (n - 1) as nat).after_check(now)
    }
}

proof fn lemma_period_positive(b: TokenBucket)
    requires
        b.interval_secs > 0,
    ensures
        b.period() >= NANOS_PER_SEC,
{
    assert(b.interval_secs as nat * NANOS_PER_SEC as nat >= NANOS_PER_SEC as nat) by (nonlinear_arith)
        requires
            b.interval_secs > 0,
    ;
}

/// Once a bucket has been checked at `now`, a further check at `now`
/// accrues nothing.
proof fn lemma_no_accrual_at_same_instant(b: TokenBucket, now: u64, n: nat)
    requires
        b.interval_secs > 0,
        b.wf(),
        n >= 1,
    ensures
        checked_times(b, now, n).refilled(now) == checked_times(b, now, n),
        checked_times(b, now, n).wf(),
        checked_times(b, now, n).capacity == b.capacity,
        checked_times(b, now, n).interval_secs == b.interval_secs,
        n <= b.capacity ==> checked_times(b, now, n).tokens <= b.capacity - n,
        n >= b.capacity ==> checked_times(b, now, n).tokens == 0,
    decreases n,
{
    lemma_period_positive(b);
    if n == 1 {
        let r = b.refilled(now);
        assert(r.last_refill == now || b.accrued(now) == 0);
        assert(r.accrued(now) == 0) by {
            if r.last_refill == now {
                assert(elapsed(now, now) == 0);
                assert(0nat / r.period() == 0) by (nonlinear_arith)
                    requires
                        r.period() > 0,
                ;
            }
        }
        assert(checked_times(b, now, 0) == b);
    } else {
        lemma_no_accrual_at_same_instant(b, now, (n - 1) as nat);
        let c = checked_times(b, now, (n - 1) as nat);
        assert(c.after_check(now).last_refill == c.last_refill);
        assert(c.after_check(now).accrued(now) == c.accrued(now));
    }
}

/// Admission bound: with no time passing, a bucket of capacity C admits at
/// most C requests in a row; the next one is denied.
pub proof fn admission_bound(b: TokenBucket, now: u64)
    requires
        b.wf(),
        b.interval_secs > 0,
    ensures
        !checked_times(b, now, b.capacity as nat).admits(now),
{
    if b.capacity == 0 {
        assert(b.refilled(now).tokens == 0);
        assert(checked_times(b, now, 0) == b);
    } else {
        lemma_no_accrual_at_same_instant(b, now, b.capacity as nat);
    }
}

/// A fresh bucket of capacity C admits each of C requests made in the same
/// instant as its creation, and denies the next one.
pub proof fn fresh_bucket_admits_full_burst(interval_secs: u64, capacity: u32, now: u64, k: nat)
    requires
        interval_secs > 0,
        k < capacity,
    ensures
        checked_times(TokenBucket::fresh(interval_secs, capacity, now), now, k).admits(now),
        !checked_times(TokenBucket::fresh(interval_secs, capacity, now), now, capacity as nat).admits(now),
{
    let b = TokenBucket::fresh(interval_secs, capacity, now);
    admission_bound(b, now);
    lemma_period_positive(b);
    if k == 0 {
        assert(elapsed(now, now) == 0);
        assert(0nat / b.period() == 0) by (nonlinear_arith)
            requires
                b.period() > 0,
        ;
        assert(checked_times(b, now, 0) == b);
    } else {
        lemma_tokens_exact(b, now, k);
    }
}

/// A fresh bucket loses exactly one token per check made in its first instant.
proof fn lemma_tokens_exact(b: TokenBucket, now: u64, k: nat)
    requires
        b.interval_secs > 0,
        b == TokenBucket::fresh(b.interval_secs, b.capacity, now),
        k <= b.capacity,
    ensures
        checked_times(b, now, k).tokens == b.capacity - k,
        checked_times(b, now, k).refilled(now) == checked_times(b, now, k),
        checked_times(b, now, k).interval_secs == b.interval_secs,
        checked_times(b, now, k).capacity == b.capacity,
    decreases k,
{
    lemma_period_positive(b);
    if k == 0 {
        assert(elapsed(now, now) == 0);
        assert(0nat / b.period() == 0) by (nonlinear_arith)
            requires
                b.period() > 0,
        ;
    } else {
        lemma_tokens_exact(b, now, (k - 1) as nat);
        let c = checked_times(b, now, (k - 1) as nat);
        assert(c.after_check(now).last_refill == c.last_refill);
        assert(c.after_check(now).accrued(now) == c.accrued(now));
    }
}

/// Refill: after a denied check at `t`, a check at least one interval later
/// is admitted; when exactly one interval's worth has accrued by then, a
/// second check at that instant is denied again.
pub proof fn refill_after_denial(b: TokenBucket, t: u64, t2: u64)
    requires
        b.wf(),
        b.capacity > 0,
        b.interval_secs > 0,
        b.last_refill <= t,
        !b.admits(t),
        t2 >= t + b.period(),
    ensures
        b.after_check(t).admits(t2),
        b.after_check(t).accrued(t2) == 1 ==> !b.after_check(t).after_check(t2).admits(t2),
{
    let c = b.after_check(t);
    lemma_period_positive(b);
    assert(c == b.refilled(t));
    assert(c.tokens == 0);
    assert(c.last_refill <= t);
    let e = elapsed(c.last_refill, t2);
    let p = c.period();
    assert(e >= p);
    assert(e / p >= 1) by (nonlinear_arith)
        requires
            e >= p,
            p > 0,
    ;
    if c.accrued(t2) == 1 {
        let d = c.after_check(t2);
        assert(d.last_refill == t2);
        assert(elapsed(t2, t2) == 0);
        assert(0nat / p == 0) by (nonlinear_arith)
            requires
                p > 0,
        ;
        assert(d.tokens == 0);
    }
}

/// Cap ceiling: however long a bucket sits idle, a check leaves it with no
/// more tokens than its capacity, and its capacity unchanged.
pub proof fn cap_ceiling(b: TokenBucket, now: u64)
    requires
        b.wf(),
    ensures
        b.refilled(now).tokens <= b.capacity,
        b.after_check(now).tokens <= b.capacity,
        b.after_check(now).capacity == b.capacity,
{
}

/// Cap ceiling over a whole registry: every bucket it holds is within its
/// capacity.
pub proof fn registry_within_capacity(r: &LimiterRegistry, key: Seq<char>)
    requires
        r.wf(),
        r.buckets().contains_key(key),
    ensures
        r.buckets()[key].tokens <= r.buckets()[key].capacity,
{
    r.lemma_buckets_wf(key);
}

/// First writer wins: once a check has created or used a key's bucket, a
/// later check on that key, within the idle limit, works on a bucket with
/// the first parameters, whatever parameters it passes.
pub proof fn first_writer_wins(
    r1: &LimiterRegistry,
    r2: &LimiterRegistry,
    key: Seq<char>,
    interval1: u64,
    capacity1: u32,
    t1: u64,
    interval2: u64,
    capacity2: u32,
    t2: u64,
)
    requires
        r1.checked(key, interval1, capacity1, t1, r2, true),
        t1 <= t2,
        t2 - t1 <= MAX_IDLE_DURATION,
    ensures
        r2.bucket_at(key, interval2, capacity2, t2).interval_secs == r1.bucket_at(key, interval1, capacity1, t1).interval_secs,
        r2.bucket_at(key, interval2, capacity2, t2).capacity == r1.bucket_at(key, interval1, capacity1, t1).capacity,
        !r1.buckets_after_sweep(t1).contains_key(key) ==> {
            &&& r2.bucket_at(key, interval2, capacity2, t2).interval_secs == interval1
            &&& r2.bucket_at(key, interval2, capacity2, t2).capacity == capacity1
        },
{
    let b = r1.bucket_at(key, interval1, capacity1, t1).after_check(t1);
    assert(r2.buckets().contains_key(key));
    assert(r2.buckets()[key] == b);
    assert(b.last_request == Some(t1));
    assert(!b.expired(t2, MAX_IDLE_DURATION));
    assert(r2.buckets_after_sweep(t2).contains_key(key));
    assert(r2.buckets_after_sweep(t2)[key] == b);
}

/// Eviction resets state: a key idle past the limit when a check's sweep
/// runs is checked as a brand-new key, with a full burst.
pub proof fn eviction_resets(r: &LimiterRegistry, key: Seq<char>, interval_secs: u64, capacity: u32, now: u64)
    requires
        r.buckets().contains_key(key),
        r.buckets()[key].expired(now, MAX_IDLE_DURATION),
        sweep_due(r.cleanup_mark(), now),
    ensures
        r.bucket_at(key, interval_secs, capacity, now) == TokenBucket::fresh(interval_secs, capacity, now),
{
    assert(!swept(r.buckets(), now).contains_key(key));
}

/// Reset is immediate: once a key's bucket is removed, the next check on
/// it works on a fresh bucket and is admitted (unless its capacity is zero
/// with a non-zero interval).
pub proof fn reset_then_check_admits(
    r1: &LimiterRegistry,
    r2: &LimiterRegistry,
    key: Seq<char>,
    interval_secs: u64,
    capacity: u32,
    now: u64,
)
    requires
        r2.buckets() == r1.buckets().remove(key),
        capacity > 0 || interval_secs == 0,
    ensures
        r2.bucket_at(key, interval_secs, capacity, now) == TokenBucket::fresh(interval_secs, capacity, now),
        r2.bucket_at(key, interval_secs, capacity, now).admits(now),
{
    let b = TokenBucket::fresh(interval_secs, capacity, now);
    assert(!r2.buckets_after_sweep(now).contains_key(key));
    if interval_secs > 0 {
        lemma_period_positive(b);
        assert(elapsed(now, now) == 0);
        assert(0nat / b.period() == 0) by (nonlinear_arith)
            requires
                b.period() > 0,
        ;
    }
}

} // verus!
