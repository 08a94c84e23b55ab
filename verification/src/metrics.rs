//! Counters for essential monitoring: bytes read, errors, cache hits and
//! misses. Like the atomic counters they stand for, they wrap around.
use vstd::prelude::*;

verus! {

/// Minimal metrics for essential monitoring.
#[derive(Debug)]
pub struct Metrics {
    /// Total bytes read
    pub bytes_read: u64,
    /// Total number of errors
    pub error_count: u64,
    /// Total number of cache hits
    pub cache_hits: u64,
    /// Total number of cache misses
    pub cache_misses: u64,
}

/// `a + b` wrapped around to 64 bits.
pub open spec fn wrap_add(a: u64, b: u64) -> u64 {
    if a + b > u64::MAX {
        (a + b - u64::MAX - 1) as u64
    } else {
        (a + b) as u64
    }
}

impl Metrics {
    /// All counters at zero.
    pub fn new() -> (m: Self)
        ensures
            m.bytes_read == 0 && m.error_count == 0 && m.cache_hits == 0 && m.cache_misses == 0,
    {
        Metrics { bytes_read: 0, error_count: 0, cache_hits: 0, cache_misses: 0 }
    }

    /// Record bytes read.
    pub fn record_read(&mut self, bytes: u64)
        ensures
            final(self).bytes_read == wrap_add(old(self).bytes_read, bytes),
            final(self).error_count == old(self).error_count,
            final(self).cache_hits == old(self).cache_hits,
            final(self).cache_misses == old(self).cache_misses,
    {
        self.bytes_read = self.bytes_read.wrapping_add(bytes);
    }

    /// Record an error.
    pub fn record_error(&mut self)
        ensures
            final(self).error_count == wrap_add(old(self).error_count, 1),
            final(self).bytes_read == old(self).bytes_read,
            final(self).cache_hits == old(self).cache_hits,
            final(self).cache_misses == old(self).cache_misses,
    {
        self.error_count = self.error_count.wrapping_add(1);
    }

    /// Record a cache hit.
    pub fn record_cache_hit(&mut self)
        ensures
            final(self).cache_hits == wrap_add(old(self).cache_hits, 1),
            final(self).bytes_read == old(self).bytes_read,
            final(self).error_count == old(self).error_count,
            final(self).cache_misses == old(self).cache_misses,
    {
        self.cache_hits = self.cache_hits.wrapping_add(1);
    }

    /// Record a cache miss.
    pub fn record_cache_miss(&mut self)
        ensures
            final(self).cache_misses == wrap_add(old(self).cache_misses, 1),
            final(self).bytes_read == old(self).bytes_read,
            final(self).error_count == old(self).error_count,
            final(self).cache_hits == old(self).cache_hits,
    {
        self.cache_misses = self.cache_misses.wrapping_add(1);
    }

    /// The number of cache lookups (hits and misses), wrapped around to 64
    /// bits as the release build of the summary computes it.
    pub fn cache_requests(&self) -> (r: u64)
        ensures
            r == wrap_add(self.cache_hits, self.cache_misses),
    {
        self.cache_hits.wrapping_add(self.cache_misses)
    }
}

impl Default for Metrics {
    fn default() -> (m: Self)
        ensures
            m.bytes_read == 0 && m.error_count == 0 && m.cache_hits == 0 && m.cache_misses == 0,
    {
        Self::new()
    }
}

} // verus!
