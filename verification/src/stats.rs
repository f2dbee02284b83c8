//! Operation counters: lookups, misses, and the time of the most recent
//! access.  The counters are 64-bit and saturate instead of wrapping.

use vstd::prelude::*;

verus! {

/// `n + 1`, stopping at the largest 64-bit value.
pub open spec fn sat_inc(n: u64) -> u64 {
    if n == u64::MAX {
        n
    } else {
        (n + 1) as u64
    }
}

/// Counters updated on every store operation and read by monitoring.
pub struct StatsCounter {
    lookup_count: u64,
    error_count: u64,
    last_access: u64,
}

impl StatsCounter {
    pub closed spec fn lookup_count(&self) -> u64 {
        self.lookup_count
    }

    pub closed spec fn error_count(&self) -> u64 {
        self.error_count
    }

    pub closed spec fn last_access(&self) -> u64 {
        self.last_access
    }

    /// Fresh counters: no operations seen yet, last access set to `now`.
    pub fn new(now: u64) -> (s: Self)
        ensures
            s.lookup_count() == 0,
            s.error_count() == 0,
            s.last_access() == now,
    {
        StatsCounter { lookup_count: 0, error_count: 0, last_access: now }
    }

    /// Counts one read operation at time `now`.
    pub fn record_lookup(&mut self, now: u64)
        ensures
            final(self).lookup_count() == sat_inc(old(self).lookup_count()),
            final(self).error_count() == old(self).error_count(),
            final(self).last_access() == now,
    {
        if self.lookup_count < u64::MAX {
            self.lookup_count = self.lookup_count + 1;
        }
        self.last_access = now;
    }

    /// Counts one lookup that found nothing.
    pub fn record_error(&mut self)
        ensures
            final(self).lookup_count() == old(self).lookup_count(),
            final(self).error_count() == sat_inc(old(self).error_count()),
            final(self).last_access() == old(self).last_access(),
    {
        if self.error_count < u64::MAX {
            self.error_count = self.error_count + 1;
        }
    }

    /// A point-in-time reading of the three counters: lookups, errors,
    /// last access time.
    pub fn snapshot(&self) -> (r: (u64, u64, u64))
        ensures
            r.0 == self.lookup_count(),
            r.1 == self.error_count(),
            r.2 == self.last_access(),
    {
        (self.lookup_count, self.error_count, self.last_access)
    }
}

} // verus!
