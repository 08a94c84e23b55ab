//! The bookkeeping of the metadata cache: hit, miss and eviction counts and
//! the statistics reported from them. The entries themselves live in the
//! cache library that the application uses.
use crate::metrics::wrap_add;
use vstd::prelude::*;

verus! {

/// Cache statistics for monitoring.
#[derive(Debug, Clone)]
pub struct CacheStats {
    pub hits: u64,
    pub misses: u64,
    pub evictions: u64,
    pub expired: u64,
    pub size: usize,
    pub weight: u64,
}

impl CacheStats {
    /// Get total number of requests (hits + misses).
    pub fn total_requests(&self) -> (r: u64)
        requires
            self.hits + self.misses <= u64::MAX,
        ensures
            r == self.hits + self.misses,
    {
        self.hits + self.misses
    }
}

impl Default for CacheStats {
    fn default() -> (r: Self)
        ensures
            r.hits == 0 && r.misses == 0 && r.evictions == 0 && r.expired == 0 && r.size == 0
                && r.weight == 0,
    {
        CacheStats { hits: 0, misses: 0, evictions: 0, expired: 0, size: 0, weight: 0 }
    }
}

/// The counters a cache keeps beside its entries. They wrap around like the
/// atomic counters they stand for.
#[derive(Debug)]
pub struct CacheCounters {
    pub hits: u64,
    pub misses: u64,
    pub evictions: u64,
    /// Maximum capacity (for eviction tracking)
    pub max_capacity: u64,
}

impl CacheCounters {
    /// Fresh counters for a cache of the given capacity.
    pub fn new(max_capacity: u64) -> (c: Self)
        ensures
            c.hits == 0 && c.misses == 0 && c.evictions == 0 && c.max_capacity == max_capacity,
    {
        CacheCounters { hits: 0, misses: 0, evictions: 0, max_capacity }
    }

    /// Counts a lookup: a hit when the key was found, else a miss.
    pub fn record_lookup(&mut self, found: bool)
        ensures
            final(self).hits == (if found { wrap_add(old(self).hits, 1) } else { old(self).hits }),
            final(self).misses == (if found { old(self).misses } else { wrap_add(old(self).misses, 1) }),
            final(self).evictions == old(self).evictions,
            final(self).max_capacity == old(self).max_capacity,
    {
        if found {
            self.hits = self.hits.wrapping_add(1);
        } else {
            self.misses = self.misses.wrapping_add(1);
        }
    }

    /// Counts an insertion: when the cache held at least its capacity
    /// before, an eviction is assumed to have made room.
    pub fn record_insert(&mut self, size_before: u64)
        ensures
            final(self).evictions == (if size_before >= old(self).max_capacity {
                wrap_add(old(self).evictions, 1)
            } else {
                old(self).evictions
            }),
            final(self).hits == old(self).hits,
            final(self).misses == old(self).misses,
            final(self).max_capacity == old(self).max_capacity,
    {
        if size_before >= self.max_capacity {
            self.evictions = self.evictions.wrapping_add(1);
        }
    }

    /// The statistics for a cache holding `entry_count` entries.
    pub fn stats(&self, entry_count: u64) -> (r: CacheStats)
        requires
            entry_count <= usize::MAX,
        ensures
            r.hits == self.hits,
            r.misses == self.misses,
            r.evictions == self.evictions,
            r.expired == 0,
            r.size == entry_count,
            r.weight == 0,
    {
        CacheStats {
            hits: self.hits,
            misses: self.misses,
            evictions: self.evictions,
            expired: 0,
            size: entry_count as usize,
            weight: 0,
        }
    }
}

} // verus!
