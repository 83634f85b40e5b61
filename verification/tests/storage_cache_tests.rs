use riptide_core::storage_cache::{CacheEntry, CacheKey, StorageCache, StorageCacheConfig, StorageCacheError};
use riptide_core::torrent::InfoHash;

fn create_test_info_hash() -> InfoHash {
    InfoHash::new([1u8; 20])
}

#[test]
fn test_storage_cache_basic_operations() {
    let mut cache = StorageCache::new_default();
    let key = CacheKey::new(create_test_info_hash(), 0..10);
    let data = b"test data!".to_vec();
    assert!(cache.get(&key).is_none());
    cache.put(key, data.clone()).unwrap();
    assert_eq!(cache.get(&key).unwrap(), data);
    assert_eq!(cache.entry_count(), 1);
    assert_eq!(cache.hit_count(), 1);
    assert_eq!(cache.miss_count(), 1);
    assert_eq!(cache.total_size(), 10);
}

#[test]
fn test_storage_cache_eviction() {
    let config = StorageCacheConfig { max_entries: 2, max_entry_size: 1024, max_total_size: 10 };
    let mut cache = StorageCache::new(config);
    let info_hash = create_test_info_hash();
    let key1 = CacheKey::new(info_hash, 0..10);
    let key2 = CacheKey::new(info_hash, 10..20);
    let key3 = CacheKey::new(info_hash, 20..30);
    cache.put(key1, b"12345".to_vec()).unwrap();
    cache.put(key2, b"67890".to_vec()).unwrap();
    cache.put(key3, b"abcde".to_vec()).unwrap();
    assert!(cache.get(&key1).is_none());
    assert!(cache.get(&key2).is_some());
    assert!(cache.get(&key3).is_some());
    assert!(cache.eviction_count() > 0);
    assert_eq!(cache.eviction_count(), 1);
}

#[test]
fn test_storage_cache_entry_too_large() {
    let config = StorageCacheConfig { max_entries: 10, max_entry_size: 5, max_total_size: 1024 };
    let mut cache = StorageCache::new(config);
    let key = CacheKey::new(create_test_info_hash(), 0..10);
    let result = cache.put(key, vec![0u8; 10]);
    assert!(matches!(result, Err(StorageCacheError::EntryTooLarge { size: 10, limit: 5 })));
    assert_eq!(cache.entry_count(), 0);
}

#[test]
fn test_storage_cache_clear_torrent() {
    let mut cache = StorageCache::new_default();
    let key1 = CacheKey::new(create_test_info_hash(), 0..10);
    let key2 = CacheKey::new(InfoHash::new([2u8; 20]), 0..10);
    cache.put(key1, b"test".to_vec()).unwrap();
    cache.put(key2, b"test".to_vec()).unwrap();
    cache.clear_torrent(create_test_info_hash());
    assert!(cache.get(&key1).is_none());
    assert!(cache.get(&key2).is_some());
    assert_eq!(cache.total_size(), 4);
}

#[test]
fn test_storage_cache_clear_all() {
    let mut cache = StorageCache::new_default();
    let key = CacheKey::new(create_test_info_hash(), 0..10);
    cache.put(key, b"test".to_vec()).unwrap();
    assert!(cache.get(&key).is_some());
    cache.clear_all();
    assert!(cache.get(&key).is_none());
    assert_eq!(cache.entry_count(), 0);
    assert_eq!(cache.total_size(), 0);
}

#[test]
fn test_cache_key_operations() {
    let info_hash = create_test_info_hash();
    let key = CacheKey::new(info_hash, 100..200);
    assert_eq!(key.range_size(), 100);
    assert_eq!(key.to_range(), 100..200);
    assert_eq!(key.info_hash, info_hash);
}

#[test]
fn test_cache_entry_tracking() {
    let data = b"test data".to_vec();
    let mut entry = CacheEntry::new(data.clone());
    assert_eq!(entry.data, data);
    assert_eq!(entry.access_count, 1);
    assert!(entry.age().as_secs() < 1);
    assert!(entry.idle_time().as_secs() < 1);
    entry.mark_accessed();
    assert_eq!(entry.access_count, 2);
}

#[test]
fn test_cached_ranges() {
    let mut cache = StorageCache::new_default();
    let info_hash = create_test_info_hash();
    let ranges = vec![0..10u64, 20..30, 40..50];
    for range in &ranges {
        cache.put(CacheKey::new(info_hash, range.clone()), b"test".to_vec()).unwrap();
    }
    cache.put(CacheKey::new(InfoHash::new([9u8; 20]), 0..4), b"else".to_vec()).unwrap();
    let cached = cache.cached_ranges(info_hash);
    assert_eq!(cached, vec![40..50, 20..30, 0..10]);
    let mut sorted = cached.clone();
    sorted.sort_by_key(|r| r.start);
    assert_eq!(sorted, ranges);
}

#[test]
fn test_reset_statistics() {
    let mut cache = StorageCache::new_default();
    let info_hash = create_test_info_hash();
    let key = CacheKey::new(info_hash, 0..10);
    cache.put(key, b"test".to_vec()).unwrap();
    cache.get(&key);
    cache.get(&CacheKey::new(info_hash, 100..110));
    assert!(cache.hit_count() > 0);
    assert!(cache.miss_count() > 0);
    cache.reset_statistics();
    assert_eq!(cache.hit_count(), 0);
    assert_eq!(cache.miss_count(), 0);
    assert_eq!(cache.eviction_count(), 0);
}

#[test]
fn test_put_then_get_returns_value() {
    let mut cache = StorageCache::new_default();
    let key = CacheKey::new(create_test_info_hash(), 5..9);
    cache.put(key, vec![1, 2, 3, 4]).unwrap();
    cache.put(key, vec![7, 7]).unwrap();
    assert_eq!(cache.get(&key).unwrap(), vec![7, 7]);
    assert_eq!(cache.entry_count(), 1);
    assert_eq!(cache.total_size(), 2);
}

#[test]
fn test_capacity_drops_least_recent() {
    let config = StorageCacheConfig { max_entries: 2, max_entry_size: 1024, max_total_size: 1024 };
    let mut cache = StorageCache::new(config);
    let info_hash = create_test_info_hash();
    let a = CacheKey::new(info_hash, 0..1);
    let b = CacheKey::new(info_hash, 1..2);
    let c = CacheKey::new(info_hash, 2..3);
    cache.put(a, vec![1]).unwrap();
    cache.put(b, vec![2]).unwrap();
    cache.get(&a);
    cache.put(c, vec![3]).unwrap();
    assert!(cache.contains_key(&a));
    assert!(!cache.contains_key(&b));
    assert!(cache.contains_key(&c));
    assert_eq!(cache.capacity(), 2);
}

#[test]
fn entry_limit_drop_keeps_its_bytes_counted() {
    let config = StorageCacheConfig { max_entries: 1, max_entry_size: 1024, max_total_size: 1024 };
    let mut cache = StorageCache::new(config);
    let info_hash = create_test_info_hash();
    let key1 = CacheKey::new(info_hash, 0..5);
    let key2 = CacheKey::new(info_hash, 5..10);
    cache.put(key1, b"12345".to_vec()).unwrap();
    cache.put(key2, b"67890".to_vec()).unwrap();
    assert_eq!(cache.entry_count(), 1);
    assert_eq!(cache.total_size(), 10);
    assert!(!cache.contains_key(&key1));
    assert!(cache.contains_key(&key2));
    assert_eq!(cache.eviction_count(), 0);
}
