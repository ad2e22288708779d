use shared_lru::shared_cache::ThreadSafeCache;

#[test]
fn test_shared_handle_clone() {
    let cache: ThreadSafeCache<i32> = ThreadSafeCache::new(10);
    let other = cache.clone();
    other.insert("key".to_string(), 42);
    assert_eq!(cache.get(&"key".to_string()), Some(42));
}

#[test]
fn test_shared_zero_capacity() {
    let cache: ThreadSafeCache<i32> = ThreadSafeCache::new(0);
    cache.insert("x".to_string(), 1);
    assert_eq!(cache.get(&"x".to_string()), None);
    assert_eq!(cache.len(), 0);
}

#[test]
fn test_shared_eviction_scenario() {
    let cache: ThreadSafeCache<i32> = ThreadSafeCache::new(2);
    cache.insert("a".to_string(), 1);
    cache.insert("b".to_string(), 2);
    assert_eq!(cache.get(&"a".to_string()), Some(1));
    cache.insert("c".to_string(), 3);
    assert_eq!(cache.get(&"b".to_string()), None);
    assert_eq!(cache.get(&"a".to_string()), Some(1));
    assert_eq!(cache.get(&"c".to_string()), Some(3));
}

#[test]
fn test_shared_interleaved_inserts() {
    // Ten handles to one capacity-100 store, each storing 100 distinct
    // keys, interleaved round-robin as a scheduler might, every insert
    // followed by a lookup of the key just stored. The final entry count
    // is the capacity, and every lookup of a just-inserted key hits.
    let cache: ThreadSafeCache<i32> = ThreadSafeCache::new(100);
    let handles: Vec<ThreadSafeCache<i32>> = (0..10).map(|_| cache.clone()).collect();
    for j in 0..100 {
        for (i, handle) in handles.iter().enumerate() {
            let key = format!("key-{}-{}", i, j);
            handle.insert(key.clone(), j);
            assert_eq!(handle.get(&key), Some(j));
        }
    }
    assert_eq!(cache.len(), 100);
}

#[test]
fn test_shared_len_never_exceeds_capacity() {
    let cache: ThreadSafeCache<i32> = ThreadSafeCache::new(5);
    for i in 0..50 {
        cache.insert(format!("key-{}", i), i);
        assert!(cache.len() <= 5);
    }
    assert_eq!(cache.len(), 5);
}

#[test]
fn test_shared_update_in_place() {
    let cache: ThreadSafeCache<i32> = ThreadSafeCache::new(2);
    cache.insert("a".to_string(), 1);
    cache.insert("b".to_string(), 2);
    cache.insert("a".to_string(), 7);
    assert_eq!(cache.len(), 2);
    assert_eq!(cache.get(&"a".to_string()), Some(7));
    assert_eq!(cache.get(&"b".to_string()), Some(2));
}
