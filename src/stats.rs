//! Request counters for the proxy.
//!
//! Each counter wraps around at the end of its range, as an atomic add does.
use vstd::prelude::*;
use vstd::wrapping::u64_specs::wrapping_add;

verus! {

/// Counters of handled requests and of their cumulative response time.
pub struct Stats {
    pub requests: u64,
    pub forwarded: u64,
    pub cached: u64,
    pub blocked: u64,
    /// Cumulative response time in microseconds, for averaging.
    pub total_response_time_us: u64,
}

/// The counters read by one `snapshot_and_reset`.
pub struct StatsSnapshot {
    pub requests: u64,
    pub forwarded: u64,
    pub cached: u64,
    pub blocked: u64,
    /// Cumulative response time in microseconds over the `requests`.
    pub total_response_us: u64,
}

impl Stats {
    /// Counters all at zero.
    pub fn new() -> (r: Self)
        ensures
            r.requests == 0 && r.forwarded == 0 && r.cached == 0 && r.blocked == 0,
            r.total_response_time_us == 0,
    {
        Stats { requests: 0, forwarded: 0, cached: 0, blocked: 0, total_response_time_us: 0 }
    }

    /// Counts a forwarded request answered after `response_time_us` microseconds.
    pub fn record_forwarded(&mut self, response_time_us: u64)
        ensures
            final(self).requests == wrapping_add(old(self).requests, 1),
            final(self).forwarded == wrapping_add(old(self).forwarded, 1),
            final(self).cached == old(self).cached,
            final(self).blocked == old(self).blocked,
            final(self).total_response_time_us == wrapping_add(old(self).total_response_time_us, response_time_us),
    {
        self.requests = self.requests.wrapping_add(1);
        self.forwarded = self.forwarded.wrapping_add(1);
        self.total_response_time_us = self.total_response_time_us.wrapping_add(response_time_us);
    }

    /// Counts a request answered from the cache after `response_time_us` microseconds.
    pub fn record_cached(&mut self, response_time_us: u64)
        ensures
            final(self).requests == wrapping_add(old(self).requests, 1),
            final(self).forwarded == old(self).forwarded,
            final(self).cached == wrapping_add(old(self).cached, 1),
            final(self).blocked == old(self).blocked,
            final(self).total_response_time_us == wrapping_add(old(self).total_response_time_us, response_time_us),
    {
        self.requests = self.requests.wrapping_add(1);
        self.cached = self.cached.wrapping_add(1);
        self.total_response_time_us = self.total_response_time_us.wrapping_add(response_time_us);
    }

    /// Counts a blocked request answered after `response_time_us` microseconds.
    pub fn record_blocked(&mut self, response_time_us: u64)
        ensures
            final(self).requests == wrapping_add(old(self).requests, 1),
            final(self).forwarded == old(self).forwarded,
            final(self).cached == old(self).cached,
            final(self).blocked == wrapping_add(old(self).blocked, 1),
            final(self).total_response_time_us == wrapping_add(old(self).total_response_time_us, response_time_us),
    {
        self.requests = self.requests.wrapping_add(1);
        self.blocked = self.blocked.wrapping_add(1);
        self.total_response_time_us = self.total_response_time_us.wrapping_add(response_time_us);
    }

    /// Reads every counter and sets it back to zero.
    pub fn snapshot_and_reset(&mut self) -> (r: StatsSnapshot)
        ensures
            r.requests == old(self).requests,
            r.forwarded == old(self).forwarded,
            r.cached == old(self).cached,
            r.blocked == old(self).blocked,
            r.total_response_us == old(self).total_response_time_us,
            final(self).requests == 0 && final(self).forwarded == 0 && final(self).cached == 0
                && final(self).blocked == 0,
            final(self).total_response_time_us == 0,
    {
        let r = StatsSnapshot {
            requests: self.requests,
            forwarded: self.forwarded,
            cached: self.cached,
            blocked: self.blocked,
            total_response_us: self.total_response_time_us,
        };
        self.requests = 0;
        self.forwarded = 0;
        self.cached = 0;
        self.blocked = 0;
        self.total_response_time_us = 0;
        r
    }
}

impl Default for Stats {
    /// Counters all at zero, as `Stats::new`.
    fn default() -> (r: Self)
        ensures
            r.requests == 0 && r.forwarded == 0 && r.cached == 0 && r.blocked == 0,
            r.total_response_time_us == 0,
    {
        Self::new()
    }
}

impl StatsSnapshot {
    /// Mean response time in whole microseconds, zero when no request was counted.
    pub fn avg_response_us(&self) -> (r: u64)
        ensures
            self.requests == 0 ==> r == 0,
            self.requests > 0 ==> r == self.total_response_us / self.requests,
    {
        if self.requests > 0 {
            self.total_response_us / self.requests
        } else {
            0
        }
    }
}

} // verus!
