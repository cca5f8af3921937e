use vstd::prelude::*;

verus! {

/// Nanoseconds in one second.
pub const NANOS_PER_SEC: u64 = 1_000_000_000;

/// Burst capacity given to a bucket when none is asked for.
pub const DEFAULT_BURST: u32 = 5;

/// Time elapsed from `from` to `to`, saturating at zero when `to` is earlier.
pub open spec fn elapsed(from: u64, to: u64) -> nat {
    if to >= from {
        (to - from) as nat
    } else {
        0
    }
}

/// Saturating difference of two instants given in nanoseconds.
pub fn elapsed_between(from: u64, to: u64) -> (r: u64)
    ensures
        r == elapsed(from, to),
{
    if to >= from {
        to - from
    } else {
        0
    }
}

/// Per-key token bucket. Instants are nanoseconds on one monotonic clock.
///
/// `capacity` tokens at most; one token accrues per `interval_secs` seconds.
/// An interval of zero means the key is never limited.
#[derive(Clone, Copy, Debug, PartialEq, Eq)]
pub struct TokenBucket {
    pub capacity: u32,
    pub tokens: u32,
    pub interval_secs: u64,
    pub last_refill: u64,
    pub last_request: Option<u64>,
}

impl TokenBucket {
    /// The bucket never holds more tokens than its capacity.
    pub open spec fn wf(self) -> bool {
        self.tokens <= self.capacity
    }

    /// A bucket as created at `now`: full, and never used.
    pub open spec fn fresh(interval_secs: u64, capacity: u32, now: u64) -> TokenBucket {
        TokenBucket {
            capacity,
            tokens: capacity,
            interval_secs,
            last_refill: now,
            last_request: None,
        }
    }

    /// Length of one refill interval in nanoseconds.
    pub open spec fn period(self) -> nat {
        self.interval_secs as nat * NANOS_PER_SEC as nat
    }

    /// Whole intervals elapsed since the last refill.
    pub open spec fn accrued(self, now: u64) -> nat
        recommends
            self.interval_secs > 0,
    {
        elapsed(self.last_refill, now) / self.period()
    }

    /// The bucket after accruing tokens up to `now`. A refill moves
    /// `last_refill` to `now`, dropping any partial interval.
    pub open spec fn refilled(self, now: u64) -> TokenBucket {
        if self.interval_secs == 0 {
            TokenBucket { tokens: self.capacity, last_refill: now, ..self }
        } else if self.accrued(now) > 0 {
            let sum = self.tokens + self.accrued(now);
            TokenBucket {
                tokens: if sum >= self.capacity { self.capacity } else { sum as u32 },
                last_refill: now,
                ..self
            }
        } else {
            self
        }
    }

    /// Whether a check at `now` admits the request.
    pub open spec fn admits(self, now: u64) -> bool {
        self.interval_secs == 0 || self.refilled(now).tokens > 0
    }

    /// The bucket after a check at `now`: refilled, then one token taken
    /// if the request is admitted (none when the key is unlimited).
    pub open spec fn after_check(self, now: u64) -> TokenBucket {
        let b = self.refilled(now);
        if self.interval_secs == 0 {
            TokenBucket { last_request: Some(now), ..b }
        } else if b.tokens > 0 {
            TokenBucket { tokens: (b.tokens - 1) as u32, last_request: Some(now), ..b }
        } else {
            b
        }
    }

    /// Idle for longer than `max_idle` since the last admitted request.
    /// A bucket that never admitted a request is never expired.
    pub open spec fn expired(self, now: u64, max_idle: u64) -> bool {
        match self.last_request {
            Some(t) => elapsed(t, now) > max_idle,
            None => false,
        }
    }

    /// A bucket refilling one token per `interval_secs` seconds, with the
    /// default burst capacity.
    pub fn new(interval_secs: u64, now: u64) -> (r: TokenBucket)
        ensures
            r == TokenBucket::fresh(interval_secs, DEFAULT_BURST, now),
            r.wf(),
    {
        TokenBucket::new_with_burst(interval_secs, DEFAULT_BURST, now)
    }

    /// A full bucket of `burst_capacity` tokens, created at `now`.
    pub fn new_with_burst(interval_secs: u64, burst_capacity: u32, now: u64) -> (r: TokenBucket)
        ensures
            r == TokenBucket::fresh(interval_secs, burst_capacity, now),
            r.wf(),
    {
        TokenBucket {
            capacity: burst_capacity,
            tokens: burst_capacity,
            interval_secs,
            last_refill: now,
            last_request: None,
        }
    }

    /// Accrues tokens up to `now`, then takes one if any is left.
    /// Returns whether the request is admitted.
    pub fn check(&mut self, now: u64) -> (admitted: bool)
        requires
            old(self).wf(),
        ensures
            admitted == old(self).admits(now),
            *final(self) == old(self).after_check(now),
            final(self).wf(),
            old(self).last_refill <= now ==> old(self).last_refill <= final(self).last_refill <= now,
    {
        if self.interval_secs == 0 {
            self.tokens = self.capacity;
            self.last_refill = now;
            self.last_request = Some(now);
            return true;
        }
        let since = elapsed_between(self.last_refill, now);
        let secs = self.interval_secs as u128;
        proof {
            assert(secs * (NANOS_PER_SEC as u128) <= u64::MAX as u128 * 1_000_000_000u128)
                by (nonlinear_arith)
                requires
                    secs <= u64::MAX,
            ;
        }
        let period: u128 = secs * (NANOS_PER_SEC as u128);
        assert(period > 0) by (nonlinear_arith)
            requires
                secs > 0,
                period == secs * 1_000_000_000,
        ;
        let add: u128 = (since as u128) / period;
        assert(add == old(self).accrued(now));
        if add > 0 {
            let room: u32 = self.capacity - self.tokens;
            if add >= room as u128 {
                self.tokens = self.capacity;
            } else {
                self.tokens = self.tokens + add as u32;
            }
            self.last_refill = now;
        }
        if self.tokens > 0 {
            self.tokens = self.tokens - 1;
            self.last_request = Some(now);
            true
        } else {
            false
        }
    }

    /// Whether the bucket has been idle for longer than `max_idle`
    /// nanoseconds at `now`.
    pub fn is_expired(&self, now: u64, max_idle: u64) -> (r: bool)
        ensures
            r == self.expired(now, max_idle),
    {
        match self.last_request {
            Some(t) => elapsed_between(t, now) > max_idle,
            None => false,
        }
    }
}

} // verus!
