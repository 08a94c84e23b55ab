use rqbit_fuse::cache::{CacheCounters, CacheStats};
use rqbit_fuse::metrics::Metrics;
use rqbit_fuse::sharded_counter::ShardedCounter;

#[test]
fn test_metrics() {
    let mut metrics = Metrics::new();

    metrics.record_read(1024);
    metrics.record_read(2048);
    metrics.record_error();
    metrics.record_cache_hit();
    metrics.record_cache_hit();
    metrics.record_cache_miss();

    assert_eq!(metrics.bytes_read, 3072);
    assert_eq!(metrics.error_count, 1);
    assert_eq!(metrics.cache_hits, 2);
    assert_eq!(metrics.cache_misses, 1);
}

#[test]
fn test_cache_hit_rate() {
    let mut metrics = Metrics::new();

    metrics.record_cache_hit();
    metrics.record_cache_hit();
    metrics.record_cache_miss();

    let hits = metrics.cache_hits;
    let misses = metrics.cache_misses;
    let total = metrics.cache_requests();
    assert_eq!(total, hits + misses);
    let hit_rate = (hits as f64 / total as f64) * 100.0;

    assert!((hit_rate - 66.67).abs() < 0.01);
}

#[test]
fn metric_counters_wrap_around() {
    let mut metrics = Metrics::default();
    metrics.record_read(u64::MAX);
    metrics.record_read(2);
    assert_eq!(metrics.bytes_read, 1);
    assert_eq!(metrics.error_count, 0);
}

#[test]
fn test_sharded_counter_basic() {
    let mut counter = ShardedCounter::new();

    counter.increment();
    counter.increment();
    counter.increment();

    assert_eq!(counter.sum(), 3);
}

#[test]
fn test_sharded_counter_default() {
    let mut counter: ShardedCounter = Default::default();
    assert_eq!(counter.sum(), 0);

    counter.increment();
    assert_eq!(counter.sum(), 1);
}

#[test]
fn sharded_counter_counts_past_the_shard_count() {
    let mut counter = ShardedCounter::new();
    for _ in 0..1000 {
        counter.increment();
    }
    assert_eq!(counter.sum(), 1000);
}

#[test]
fn cache_counters() {
    let mut c = CacheCounters::new(2);
    c.record_lookup(true);
    c.record_lookup(false);
    c.record_lookup(false);
    c.record_insert(0);
    c.record_insert(1);
    c.record_insert(2);
    c.record_insert(5);
    let s = c.stats(2);
    assert_eq!(s.hits, 1);
    assert_eq!(s.misses, 2);
    assert_eq!(s.evictions, 2);
    assert_eq!(s.expired, 0);
    assert_eq!(s.size, 2);
    assert_eq!(s.weight, 0);
    assert_eq!(s.total_requests(), 3);
    let d = CacheStats::default();
    assert_eq!(d.total_requests(), 0);
}
