use image_proxy::cache::CacheConfig;
use image_proxy::cache::ImageCache;
use image_proxy::cache::MAX_CAPACITY_MB;
use image_proxy::errors::ImageError;
use image_proxy::keys::CacheKey;

fn config(mb: u64, ttl_sec: u64, tti_sec: u64) -> CacheConfig {
    CacheConfig { max_capacity_mb: mb, time_to_live_sec: ttl_sec, time_to_idle_sec: tti_sec }
}

fn store(mb: u64, ttl_sec: u64, tti_sec: u64) -> ImageCache {
    ImageCache::new(config(mb, ttl_sec, tti_sec)).unwrap()
}

#[test]
fn construction_validates_the_configuration() {
    assert!(ImageCache::new(config(1, 60, 60)).is_ok());
    assert_eq!(ImageCache::new(config(0, 60, 60)).err(), Some(ImageError::CapacityConfigError));
    assert_eq!(
        ImageCache::new(config(MAX_CAPACITY_MB + 1, 60, 60)).err(),
        Some(ImageError::CapacityConfigError)
    );
    assert_eq!(ImageCache::new(config(1, u64::MAX, 60)).err(), Some(ImageError::CapacityConfigError));
}

#[test]
fn a_hit_returns_byte_identical_content() {
    let mut c = store(1, 600, 600);
    let bytes = vec![1u8, 2, 3, 250, 0, 9];
    c.insert(&CacheKey(7), bytes.clone(), 1_000);
    assert_eq!(c.get(&CacheKey(7), 1_500), Some(bytes));
    assert_eq!(c.get(&CacheKey(8), 1_500), None);
}

#[test]
fn insert_replaces_the_prior_entry_completely() {
    let mut c = store(1, 600, 600);
    c.insert(&CacheKey(7), vec![1u8; 100], 1_000);
    c.insert(&CacheKey(7), vec![2u8; 5], 2_000);
    assert_eq!(c.entry_count(), 1);
    assert_eq!(c.weighted_size(), 5);
    assert_eq!(c.get(&CacheKey(7), 2_100), Some(vec![2u8; 5]));
}

#[test]
fn time_to_live_expires_even_under_continuous_access() {
    // ttl 10 s, tti much larger; insert at t = 0.
    let mut c = store(1, 10, 600);
    c.insert(&CacheKey(1), vec![9u8; 4], 0);
    // Access continuously: each read refreshes last-access, never insertion.
    assert!(c.get(&CacheKey(1), 3_000).is_some());
    assert!(c.get(&CacheKey(1), 6_000).is_some());
    assert!(c.get(&CacheKey(1), 9_999).is_some());
    // At exactly insertion + ttl the entry is unreachable.
    assert_eq!(c.get(&CacheKey(1), 10_000), None);
    assert_eq!(c.get(&CacheKey(1), 20_000), None);
}

#[test]
fn time_to_idle_expires_an_untouched_entry() {
    // tti 5 s, ttl much larger; insert at t = 0.
    let mut c = store(1, 600, 5);
    c.insert(&CacheKey(1), vec![9u8; 4], 0);
    assert!(c.get(&CacheKey(1), 4_999).is_some());
    // Untouched from 4 999 ms on: unreachable once 5 s of idleness passed,
    // though its time-to-live is nowhere near over.
    assert_eq!(c.get(&CacheKey(1), 9_999), None);

    let mut c = store(1, 600, 5);
    c.insert(&CacheKey(2), vec![9u8; 4], 0);
    assert_eq!(c.get(&CacheKey(2), 5_000), None);
}

#[test]
fn weighted_size_never_ends_an_insert_over_capacity() {
    // 1 MB = 1 048 576 bytes of capacity.
    let mut c = store(1, 600, 600);
    c.insert(&CacheKey(1), vec![0u8; 700_000], 1_000);
    assert_eq!(c.weighted_size(), 700_000);
    c.insert(&CacheKey(2), vec![0u8; 700_000], 2_000);
    // Both cannot fit: the least recently used entry was evicted.
    assert_eq!(c.entry_count(), 1);
    assert!(c.weighted_size() <= 1_048_576);
    assert_eq!(c.get(&CacheKey(1), 2_100), None);
    assert!(c.get(&CacheKey(2), 2_100).is_some());
}

#[test]
fn eviction_picks_the_least_recently_used_entry() {
    let mut c = store(1, 600, 600);
    c.insert(&CacheKey(1), vec![0u8; 400_000], 1_000);
    c.insert(&CacheKey(2), vec![0u8; 400_000], 2_000);
    // Refresh entry 1, making entry 2 the least recently used.
    assert!(c.get(&CacheKey(1), 3_000).is_some());
    c.insert(&CacheKey(3), vec![0u8; 400_000], 4_000);
    assert_eq!(c.entry_count(), 2);
    assert!(c.get(&CacheKey(1), 4_100).is_some());
    assert_eq!(c.get(&CacheKey(2), 4_100), None);
    assert!(c.get(&CacheKey(3), 4_100).is_some());
}

#[test]
fn an_entry_larger_than_the_whole_capacity_cannot_stay() {
    let mut c = store(1, 600, 600);
    c.insert(&CacheKey(1), vec![0u8; 2_000_000], 1_000);
    assert!(c.weighted_size() <= 1_048_576);
    assert_eq!(c.entry_count(), 0);
}

#[test]
fn remove_is_idempotent_and_clear_flushes() {
    let mut c = store(1, 600, 600);
    c.insert(&CacheKey(1), vec![1u8], 1_000);
    c.insert(&CacheKey(2), vec![2u8], 1_000);
    c.remove(&CacheKey(1));
    c.remove(&CacheKey(1));
    assert_eq!(c.entry_count(), 1);
    assert_eq!(c.get(&CacheKey(1), 1_100), None);
    c.clear();
    assert_eq!(c.entry_count(), 0);
    assert_eq!(c.weighted_size(), 0);
    assert_eq!(c.get(&CacheKey(2), 1_200), None);
}

#[test]
fn stats_report_counts_sizes_and_hit_counters() {
    let mut c = store(2, 600, 600);
    c.insert(&CacheKey(1), vec![0u8; 10], 1_000);
    assert!(c.get(&CacheKey(1), 1_100).is_some());
    assert!(c.get(&CacheKey(9), 1_200).is_none());
    let s = c.get_stats();
    assert_eq!(s.entry_count, 1);
    assert_eq!(s.weighted_size, 10);
    assert_eq!(s.max_capacity, 2 * 1_048_576);
    assert_eq!(s.hits, 1);
    assert_eq!(s.lookups, 2);
}

#[test]
fn a_stale_clock_cannot_resurrect_an_expired_entry() {
    let mut c = store(1, 10, 600);
    c.insert(&CacheKey(1), vec![1u8], 50_000);
    // A caller handing in an earlier timestamp is clamped to the stored
    // clock; the entry's age keeps counting from its true insertion.
    assert!(c.get(&CacheKey(1), 10).is_some());
    assert_eq!(c.get(&CacheKey(1), 60_000), None);
}

#[test]
fn the_sweep_drops_expired_entries_and_keeps_live_ones() {
    // ttl 10 s; entry 1 inserted at t = 0, entry 2 at t = 8 s.
    let mut c = store(1, 10, 600);
    c.insert(&CacheKey(1), vec![1u8; 8], 0);
    c.insert(&CacheKey(2), vec![2u8; 8], 8_000);
    c.evict_expired(12_000);
    assert_eq!(c.entry_count(), 1);
    assert_eq!(c.weighted_size(), 8);
    assert_eq!(c.get(&CacheKey(1), 12_001), None);
    assert!(c.get(&CacheKey(2), 12_001).is_some());
    // Sweeping an empty or all-live store changes nothing.
    c.evict_expired(12_002);
    assert_eq!(c.entry_count(), 1);
}
