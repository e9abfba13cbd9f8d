use pdf_mcp_server::CacheManager;

#[test]
fn test_cache_basic_operations() {
    let mut cache = CacheManager::new(10, 1024 * 1024);

    assert!(cache.is_empty());

    cache.put("key1".to_string(), vec![1, 2, 3]);
    assert!(!cache.is_empty());
    assert_eq!(cache.len(), 1);
    assert_eq!(cache.total_bytes(), 3);

    let data = cache.get("key1").unwrap();
    assert_eq!(data, vec![1, 2, 3]);

    assert!(cache.contains("key1"));
    assert!(!cache.contains("key2"));
}

#[test]
fn test_cache_eviction() {
    let mut cache = CacheManager::new(2, 1024 * 1024);

    cache.put("key1".to_string(), vec![1]);
    cache.put("key2".to_string(), vec![2]);
    cache.put("key3".to_string(), vec![3]);

    // key1 should be evicted (LRU)
    assert!(!cache.contains("key1"));
    assert!(cache.contains("key2"));
    assert!(cache.contains("key3"));
}

#[test]
fn test_cache_remove() {
    let mut cache = CacheManager::new(10, 1024 * 1024);

    cache.put("key1".to_string(), vec![1, 2, 3]);
    assert_eq!(cache.total_bytes(), 3);

    let removed = cache.remove("key1");
    assert_eq!(removed, Some(vec![1, 2, 3]));
    assert!(!cache.contains("key1"));
    assert_eq!(cache.total_bytes(), 0);
}

#[test]
fn test_cache_clear() {
    let mut cache = CacheManager::new(10, 1024 * 1024);

    cache.put("key1".to_string(), vec![1]);
    cache.put("key2".to_string(), vec![2]);
    assert_eq!(cache.total_bytes(), 2);

    cache.clear();
    assert!(cache.is_empty());
    assert_eq!(cache.total_bytes(), 0);
}

#[test]
fn test_generate_key() {
    let key1 = CacheManager::generate_key();
    let key2 = CacheManager::generate_key();

    assert_ne!(key1, key2);
    assert_eq!(key1.len(), 36); // UUID format
}

#[test]
fn test_cache_byte_budget_eviction() {
    // 100 byte budget, 10 entry capacity
    let mut cache = CacheManager::new(10, 100);

    // Put 5 entries of 30 bytes each = 150, exceeds budget
    cache.put("key1".to_string(), vec![0u8; 30]);
    cache.put("key2".to_string(), vec![0u8; 30]);
    cache.put("key3".to_string(), vec![0u8; 30]);
    assert_eq!(cache.total_bytes(), 90);

    // Adding 30 more would exceed 100, so key1 should be evicted
    cache.put("key4".to_string(), vec![0u8; 30]);
    assert!(!cache.contains("key1"));
    assert!(cache.contains("key2"));
    assert!(cache.contains("key3"));
    assert!(cache.contains("key4"));
    assert_eq!(cache.total_bytes(), 90);
}

#[test]
fn test_cache_oversized_entry_rejected() {
    let mut cache = CacheManager::new(10, 50);

    // Entry larger than entire budget should be rejected
    cache.put("huge".to_string(), vec![0u8; 100]);
    assert!(!cache.contains("huge"));
    assert_eq!(cache.total_bytes(), 0);
    assert!(cache.is_empty());
}

#[test]
fn test_cache_byte_tracking_update() {
    let mut cache = CacheManager::new(10, 1024);

    cache.put("key1".to_string(), vec![0u8; 50]);
    assert_eq!(cache.total_bytes(), 50);

    // Updating same key should adjust bytes
    cache.put("key1".to_string(), vec![0u8; 30]);
    assert_eq!(cache.total_bytes(), 30);
    assert_eq!(cache.len(), 1);
}

#[test]
fn cache_counts_bytes_of_entries_evicted_for_capacity() {
    let mut cache = CacheManager::new(2, 1000);
    cache.put("a".to_string(), vec![0u8; 10]);
    cache.put("b".to_string(), vec![0u8; 20]);
    cache.put("c".to_string(), vec![0u8; 40]);
    assert!(!cache.contains("a"));
    assert_eq!(cache.len(), 2);
    assert_eq!(cache.total_bytes(), 60);
}

#[test]
fn cache_get_refreshes_use() {
    let mut cache = CacheManager::new(2, 1000);
    cache.put("a".to_string(), vec![1]);
    cache.put("b".to_string(), vec![2]);
    assert_eq!(cache.get("a"), Some(vec![1]));
    cache.put("c".to_string(), vec![3]);
    assert!(cache.contains("a"));
    assert!(!cache.contains("b"));
    assert_eq!(cache.get("b"), None);
    assert_eq!(cache.remove("zzz"), None);
}

#[test]
fn cache_zero_capacity_holds_one() {
    let mut cache = CacheManager::new(0, 1000);
    cache.put("a".to_string(), vec![1]);
    cache.put("b".to_string(), vec![2]);
    assert_eq!(cache.len(), 1);
    assert!(cache.contains("b"));
    assert_eq!(cache.total_bytes(), 1);
}

#[test]
fn unique_key_is_unused() {
    let mut cache = CacheManager::new(10, 1000);
    let key = cache.generate_unique_key().unwrap();
    assert_eq!(key.len(), 36);
    assert!(!cache.contains(&key));
    cache.put(key.clone(), vec![1]);
    let other = cache.generate_unique_key().unwrap();
    assert_ne!(other, key);
}
