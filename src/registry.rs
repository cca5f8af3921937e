use vstd::prelude::*;

use crate::bucket::{elapsed, elapsed_between, TokenBucket, DEFAULT_BURST, NANOS_PER_SEC};

verus! {

/// How often, at most, the registry sweeps out idle keys (five minutes).
pub const CLEANUP_INTERVAL: u64 = 300 * NANOS_PER_SEC;

/// How long a key may sit idle before a sweep removes it (one hour).
pub const MAX_IDLE_DURATION: u64 = 3600 * NANOS_PER_SEC;

/// Whether a sweep runs at `now`, given the instant of the last one.
pub open spec fn sweep_due(last_cleanup: u64, now: u64) -> bool {
    elapsed(last_cleanup, now) >= CLEANUP_INTERVAL
}

/// The buckets that survive a sweep at `now`.
pub open spec fn swept(m: Map<Seq<char>, TokenBucket>, now: u64) -> Map<Seq<char>, TokenBucket> {
    Map::new(|k: Seq<char>| m.contains_key(k) && !m[k].expired(now, MAX_IDLE_DURATION), |k: Seq<char>| m[k])
}

/// The bucket a check on `key` works on: the stored one, or a fresh one
/// with the given parameters when the key is unknown.
pub open spec fn bucket_for(
    m: Map<Seq<char>, TokenBucket>,
    key: Seq<char>,
    interval_secs: u64,
    capacity: u32,
    now: u64,
) -> TokenBucket {
    if m.contains_key(key) {
        m[key]
    } else {
        TokenBucket::fresh(interval_secs, capacity, now)
    }
}

/// The burst capacity asked for, or the default one.
pub open spec fn burst_or_default(burst_capacity: Option<u32>) -> u32 {
    match burst_capacity {
        Some(c) => c,
        None => DEFAULT_BURST,
    }
}

/// One key and its bucket.
pub struct LimiterEntry {
    pub key: String,
    pub bucket: TokenBucket,
}

/// Number of keys that hold a bucket.
pub struct RateLimitStats {
    pub active_limiters: usize,
}

/// The buckets of all keys, and the instant of the last sweep.
///
/// Instants are nanoseconds since `origin`, the moment the registry was made.
pub struct LimiterRegistry {
    entries: Vec<LimiterEntry>,
    last_cleanup: u64,
    origin: std::time::Instant,
    model: Ghost<Map<Seq<char>, TokenBucket>>,
}

#[verifier::external_type_specification]
#[verifier::external_body]
pub struct ExInstant(std::time::Instant);

/// Relies on Instant::now: reads the monotonic clock. Nothing is known of
/// the value.
pub assume_specification[ std::time::Instant::now ]() -> std::time::Instant;

/// Relies on Instant::elapsed: the time passed since `origin` on the
/// monotonic clock, in nanoseconds. It depends on when it is called, so
/// nothing is stated of it.
#[verifier::external_body]
fn nanos_since(origin: &std::time::Instant) -> (r: u64) {
    origin.elapsed().as_nanos() as u64
}

impl LimiterRegistry {
    /// Bucket of each key.
    pub closed spec fn buckets(&self) -> Map<Seq<char>, TokenBucket> {
        self.model@
    }

    /// Instant of the last sweep.
    pub closed spec fn cleanup_mark(&self) -> u64 {
        self.last_cleanup
    }

    /// The entries hold each key once, and agree with `buckets`.
    pub closed spec fn wf(&self) -> bool {
        &&& self.model@.dom().finite()
        &&& self.model@.len() == self.entries@.len()
        &&& forall|i: int|
            0 <= i < self.entries@.len() ==> #[trigger] self.model@.contains_key(self.entries@[i].key@)
                && self.model@[self.entries@[i].key@] == self.entries@[i].bucket
        &&& forall|i: int, j: int|
            0 <= i < self.entries@.len() && 0 <= j < self.entries@.len() && i != j
                ==> #[trigger] self.entries@[i].key@ != #[trigger] self.entries@[j].key@
        &&& forall|k: Seq<char>|
            #[trigger] self.model@.contains_key(k) ==> exists|i: int|
                0 <= i < self.entries@.len() && #[trigger] self.entries@[i].key@ == k
        &&& forall|k: Seq<char>| #[trigger] self.model@.contains_key(k) ==> self.model@[k].wf()
    }

    /// Every bucket of a well-formed registry is within its capacity.
    pub proof fn lemma_buckets_wf(&self, key: Seq<char>)
        requires
            self.wf(),
            self.buckets().contains_key(key),
        ensures
            self.buckets()[key].wf(),
    {
    }

    /// The buckets left once the sweep that a check at `now` triggers has run.
    pub open spec fn buckets_after_sweep(&self, now: u64) -> Map<Seq<char>, TokenBucket> {
        if sweep_due(self.cleanup_mark(), now) {
            swept(self.buckets(), now)
        } else {
            self.buckets()
        }
    }

    /// The sweep instant once the sweep that a check at `now` triggers has run.
    pub open spec fn mark_after_sweep(&self, now: u64) -> u64 {
        if sweep_due(self.cleanup_mark(), now) {
            now
        } else {
            self.cleanup_mark()
        }
    }

    /// An empty registry; its clock starts now.
    pub fn new() -> (r: LimiterRegistry)
        ensures
            r.wf(),
            r.buckets() == Map::<Seq<char>, TokenBucket>::empty(),
            r.cleanup_mark() == 0,
    {
        LimiterRegistry {
            entries: Vec::new(),
            last_cleanup: 0,
            origin: std::time::Instant::now(),
            model: Ghost(Map::empty()),
        }
    }

    /// Position of `key` among the entries, if it has one.
    fn find(&self, key: &String) -> (r: Option<usize>)
        requires
            self.wf(),
        ensures
            match r {
                Some(i) => i < self.entries@.len() && self.entries@[i as int].key@ == key@,
                None => !self.buckets().contains_key(key@),
            },
    {
        let mut i: usize = 0;
        while i < self.entries.len()
            invariant
                self.wf(),
                i <= self.entries@.len(),
                forall|j: int| 0 <= j < i ==> self.entries@[j].key@ != key@,
            decreases self.entries@.len() - i,
        {
            if self.entries[i].key == *key {
                return Some(i);
            }
            i = i + 1;
        }
        None
    }
    /// Removes every key idle for longer than `MAX_IDLE_DURATION`, if at
    /// least `CLEANUP_INTERVAL` has passed since the last sweep; otherwise
    /// does nothing.
    pub fn cleanup_expired_limiters(&mut self, now: u64)
        requires
            old(self).wf(),
        ensures
            final(self).wf(),
            final(self).buckets() == old(self).buckets_after_sweep(now),
            final(self).cleanup_mark() == old(self).mark_after_sweep(now),
    {
        if elapsed_between(self.last_cleanup, now) < CLEANUP_INTERVAL {
            return;
        }
        let ghost m = self.model@;
        let mut kept: Vec<LimiterEntry> = Vec::new();
        let ghost mut g: Map<Seq<char>, TokenBucket> = Map::empty();
        let mut i: usize = 0;
        while i < self.entries.len()
            invariant
                self.wf(),
                self.model@ == m,
                i <= self.entries@.len(),
                g.dom().finite(),
                g.len() == kept@.len(),
                forall|j: int|
                    0 <= j < kept@.len() ==> #[trigger] g.contains_key(kept@[j].key@)
                        && g[kept@[j].key@] == kept@[j].bucket,
                forall|a: int, b: int|
                    0 <= a < kept@.len() && 0 <= b < kept@.len() && a != b
                        ==> #[trigger] kept@[a].key@ != #[trigger] kept@[b].key@,
                forall|k: Seq<char>|
                    #[trigger] g.contains_key(k) ==> exists|j: int|
                        0 <= j < kept@.len() && #[trigger] kept@[j].key@ == k,
                forall|k: Seq<char>|
                    #[trigger] g.contains_key(k) <==> (exists|j: int|
                        0 <= j < i && #[trigger] self.entries@[j].key@ == k
                            && !self.entries@[j].bucket.expired(now, MAX_IDLE_DURATION)),
                forall|k: Seq<char>| #[trigger] g.contains_key(k) ==> g[k] == m[k],
            decreases self.entries@.len() - i,
        {
            if !self.entries[i].bucket.is_expired(now, MAX_IDLE_DURATION) {
                let key = self.entries[i].key.clone();
                let bucket = self.entries[i].bucket;
                let ghost old_kept = kept@;
                let ghost old_g = g;
                proof {
                    assert(!g.contains_key(key@)) by {
                        if g.contains_key(key@) {
                            let j = choose|j: int|
                                0 <= j < i && #[trigger] self.entries@[j].key@ == key@
                                    && !self.entries@[j].bucket.expired(now, MAX_IDLE_DURATION);
                            assert(self.entries@[j].key@ == self.entries@[i as int].key@);
                        }
                    }
                    assert(m.contains_key(self.entries@[i as int].key@));
                    assert(m[key@] == bucket);
                    g = g.insert(key@, bucket);
                }
                kept.push(LimiterEntry { key, bucket });
                proof {
                    let last = old_kept.len() as int;
                    assert forall|j: int| 0 <= j < kept@.len() implies #[trigger] g.contains_key(kept@[j].key@)
                        && g[kept@[j].key@] == kept@[j].bucket by {
                        if j < last {
                            assert(kept@[j] == old_kept[j]);
                            assert(old_g.contains_key(old_kept[j].key@));
                        }
                    }
                    assert forall|a: int, b: int|
                        0 <= a < kept@.len() && 0 <= b < kept@.len() && a != b
                            implies #[trigger] kept@[a].key@ != #[trigger] kept@[b].key@ by {
                        if a < last && b < last {
                            assert(kept@[a] == old_kept[a]);
                            assert(kept@[b] == old_kept[b]);
                        } else if a < last {
                            assert(kept@[a] == old_kept[a]);
                            assert(old_g.contains_key(old_kept[a].key@));
                        } else {
                            assert(kept@[b] == old_kept[b]);
                            assert(old_g.contains_key(old_kept[b].key@));
                        }
                    }
                    assert forall|k: Seq<char>| #[trigger] g.contains_key(k) implies exists|j: int|
                        0 <= j < kept@.len() && #[trigger] kept@[j].key@ == k by {
                        if k == key@ {
                            assert(kept@[kept@.len() - 1].key@ == k);
                        } else {
                            assert(old_g.contains_key(k));
                            let j = choose|j: int| 0 <= j < old_kept.len() && #[trigger] old_kept[j].key@ == k;
                            assert(kept@[j] == old_kept[j]);
                            assert(kept@[j].key@ == k);
                        }
                    }
                }
            }
            i = i + 1;
        }
        proof {
            assert(g =~= swept(m, now)) by {
                assert forall|k: Seq<char>| #[trigger] g.contains_key(k) <==> swept(m, now).contains_key(k) by {
                    if m.contains_key(k) {
                        let j = choose|j: int| 0 <= j < self.entries@.len() && #[trigger] self.entries@[j].key@ == k;
                        assert(self.entries@[j].key@ == k);
                    }
                    if g.contains_key(k) {
                        let j = choose|j: int|
                            0 <= j < i && #[trigger] self.entries@[j].key@ == k
                                && !self.entries@[j].bucket.expired(now, MAX_IDLE_DURATION);
                        assert(self.entries@[j].key@ == k);
                    }
                }
            }
        }
        self.entries = kept;
        self.model = Ghost(g);
        self.last_cleanup = now;
    }
    /// The bucket that a check at `now` on `key` works on, after the sweep.
    pub open spec fn bucket_at(
        &self,
        key: Seq<char>,
        interval_secs: u64,
        capacity: u32,
        now: u64,
    ) -> TokenBucket {
        bucket_for(self.buckets_after_sweep(now), key, interval_secs, capacity, now)
    }

    /// Whether `final` and `admitted` are the outcome of a check at `now` on
    /// `key` in this registry.
    pub open spec fn checked(
        &self,
        key: Seq<char>,
        interval_secs: u64,
        capacity: u32,
        now: u64,
        next: &LimiterRegistry,
        admitted: bool,
    ) -> bool {
        let b = self.bucket_at(key, interval_secs, capacity, now);
        &&& admitted == b.admits(now)
        &&& next.buckets() == self.buckets_after_sweep(now).insert(key, b.after_check(now))
        &&& next.cleanup_mark() == self.mark_after_sweep(now)
    }

    /// Checks `key` at `now`: runs the sweep when due, creates the key's
    /// bucket from `interval_secs` and `burst_capacity` if it has none (a
    /// known key keeps its own parameters), and applies the bucket's check.
    pub fn check_at(&mut self, key: String, interval_secs: u64, burst_capacity: u32, now: u64) -> (admitted: bool)
        requires
            old(self).wf(),
        ensures
            final(self).wf(),
            old(self).checked(key@, interval_secs, burst_capacity, now, final(self), admitted),
    {
        self.cleanup_expired_limiters(now);
        let ghost m = self.model@;
        let ghost k = key@;
        match self.find(&key) {
            Some(i) => {
                proof {
                    assert(m.contains_key(self.entries@[i as int].key@));
                }
                let ghost before = self.entries@;
                let admitted = self.entries[i].bucket.check(now);
                proof {
                    self.model@ = m.insert(k, self.entries@[i as int].bucket);
                    assert forall|j: int| 0 <= j < self.entries@.len() && j != i
                        implies #[trigger] self.entries@[j] == before[j] by {}
                    assert(self.entries@[i as int].key == before[i as int].key);
                    assert forall|a: int, b: int|
                        0 <= a < self.entries@.len() && 0 <= b < self.entries@.len() && a != b
                            implies #[trigger] self.entries@[a].key@ != #[trigger] self.entries@[b].key@ by {
                        assert(self.entries@[a].key == before[a].key);
                        assert(self.entries@[b].key == before[b].key);
                    }
                    assert forall|j: int| 0 <= j < self.entries@.len()
                        implies #[trigger] self.model@.contains_key(self.entries@[j].key@)
                            && self.model@[self.entries@[j].key@] == self.entries@[j].bucket by {
                        if j != i {
                            assert(m.contains_key(before[j].key@));
                            assert(before[j].key@ != before[i as int].key@);
                        }
                    }
                    assert forall|q: Seq<char>| #[trigger] self.model@.contains_key(q) implies exists|j: int|
                        0 <= j < self.entries@.len() && #[trigger] self.entries@[j].key@ == q by {
                        let j = choose|j: int| 0 <= j < before.len() && #[trigger] before[j].key@ == q;
                        assert(self.entries@[j].key@ == q);
                    }
                    assert(self.model@.dom() =~= m.dom());
                }
                admitted
            },
            None => {
                let mut bucket = TokenBucket::new_with_burst(interval_secs, burst_capacity, now);
                let admitted = bucket.check(now);
                let ghost before = self.entries@;
                self.entries.push(LimiterEntry { key, bucket });
                proof {
                    self.model@ = m.insert(k, bucket);
                    assert forall|j: int| 0 <= j < before.len()
                        implies #[trigger] self.entries@[j] == before[j] by {}
                    let last = before.len() as int;
                    assert forall|a: int, b: int|
                        0 <= a < self.entries@.len() && 0 <= b < self.entries@.len() && a != b
                            implies #[trigger] self.entries@[a].key@ != #[trigger] self.entries@[b].key@ by {
                        if a < last {
                            assert(m.contains_key(before[a].key@));
                        }
                        if b < last {
                            assert(m.contains_key(before[b].key@));
                        }
                    }
                    assert forall|j: int| 0 <= j < self.entries@.len()
                        implies #[trigger] self.model@.contains_key(self.entries@[j].key@)
                            && self.model@[self.entries@[j].key@] == self.entries@[j].bucket by {
                        if j < last {
                            assert(m.contains_key(before[j].key@));
                        }
                    }
                    assert forall|q: Seq<char>| #[trigger] self.model@.contains_key(q) implies exists|j: int|
                        0 <= j < self.entries@.len() && #[trigger] self.entries@[j].key@ == q by {
                        if q == k {
                            assert(self.entries@[before.len() as int].key@ == q);
                        } else {
                            let j = choose|j: int| 0 <= j < before.len() && #[trigger] before[j].key@ == q;
                            assert(self.entries@[j].key@ == q);
                        }
                    }
                }
                admitted
            },
        }
    }

    /// Checks `key` at the current time; `burst_capacity` defaults to
    /// `DEFAULT_BURST`. The outcome is that of `check_at` at some instant.
    pub fn check_rate_limit(&mut self, key: String, interval_secs: u64, burst_capacity: Option<u32>) -> (admitted: bool)
        requires
            old(self).wf(),
        ensures
            final(self).wf(),
            exists|now: u64|
                old(self).checked(key@, interval_secs, burst_or_default(burst_capacity), now, final(self), admitted),
    {
        let capacity = match burst_capacity {
            Some(c) => c,
            None => DEFAULT_BURST,
        };
        assert(capacity == burst_or_default(burst_capacity));
        let now = nanos_since(&self.origin);
        self.check_at(key, interval_secs, capacity, now)
    }

    /// Number of keys that hold a bucket.
    pub fn get_rate_limit_stats(&self) -> (r: RateLimitStats)
        requires
            self.wf(),
        ensures
            r.active_limiters == self.buckets().len(),
    {
        RateLimitStats { active_limiters: self.entries.len() }
    }

    /// Forgets `key`'s bucket; returns whether it had one.
    pub fn reset_rate_limit(&mut self, key: &String) -> (removed: bool)
        requires
            old(self).wf(),
        ensures
            final(self).wf(),
            removed == old(self).buckets().contains_key(key@),
            final(self).buckets() == old(self).buckets().remove(key@),
            final(self).cleanup_mark() == old(self).cleanup_mark(),
    {
        let ghost m = self.model@;
        match self.find(key) {
            Some(i) => {
                proof {
                    assert(m.contains_key(self.entries@[i as int].key@));
                }
                let ghost before = self.entries@;
                self.entries.remove(i);
                proof {
                    self.model@ = m.remove(key@);
                    assert forall|j: int| 0 <= j < self.entries@.len()
                        implies #[trigger] self.entries@[j] == before[if j < i { j } else { j + 1 }] by {}
                    assert forall|q: Seq<char>| #[trigger] self.model@.contains_key(q) implies exists|j: int|
                        0 <= j < self.entries@.len() && #[trigger] self.entries@[j].key@ == q by {
                        let j = choose|j: int| 0 <= j < before.len() && #[trigger] before[j].key@ == q;
                        if j < i {
                            assert(self.entries@[j].key@ == q);
                        } else {
                            assert(j != i);
                            assert(self.entries@[j - 1].key@ == q);
                        }
                    }
                    assert forall|a: int, b: int|
                        0 <= a < self.entries@.len() && 0 <= b < self.entries@.len() && a != b
                            implies #[trigger] self.entries@[a].key@ != #[trigger] self.entries@[b].key@ by {
                        let a2 = if a < i { a } else { a + 1 };
                        let b2 = if b < i { b } else { b + 1 };
                        assert(self.entries@[a] == before[a2]);
                        assert(self.entries@[b] == before[b2]);
                    }
                    assert forall|j: int| 0 <= j < self.entries@.len()
                        implies #[trigger] self.model@.contains_key(self.entries@[j].key@)
                            && self.model@[self.entries@[j].key@] == self.entries@[j].bucket by {
                        let j2 = if j < i { j } else { j + 1 };
                        assert(self.entries@[j] == before[j2]);
                        assert(m.contains_key(before[j2].key@));
                        assert(before[j2].key@ != before[i as int].key@);
                    }
                }
                true
            },
            None => {
                proof {
                    assert(m.remove(key@) =~= m);
                }
                false
            },
        }
    }
}

} // verus!
