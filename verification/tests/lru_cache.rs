use shared_lru::lru::LRUCache;

#[test]
fn test_lru_cache() {
    let mut cache = LRUCache::new(2);
    cache.insert("a".to_string(), 1);
    cache.insert("b".to_string(), 2);
    assert_eq!(cache.get(&"a".to_string()), Some(1));
    cache.insert("c".to_string(), 3);
    assert_eq!(cache.get(&"b".to_string()), None);
}

#[test]
fn test_capacity_two_scenario() {
    let mut cache = LRUCache::new(2);
    cache.insert("a".to_string(), 1);
    cache.insert("b".to_string(), 2);
    assert_eq!(cache.get(&"a".to_string()), Some(1));
    cache.insert("c".to_string(), 3);
    assert_eq!(cache.get(&"b".to_string()), None);
    assert_eq!(cache.get(&"a".to_string()), Some(1));
    assert_eq!(cache.get(&"c".to_string()), Some(3));
}

#[test]
fn test_zero_capacity() {
    let mut cache = LRUCache::new(0);
    cache.insert("x".to_string(), 1);
    assert_eq!(cache.get(&"x".to_string()), None);
    assert_eq!(cache.len(), 0);
}

#[test]
fn test_update_in_place() {
    let mut cache = LRUCache::new(2);
    cache.insert("a".to_string(), 1);
    cache.insert("b".to_string(), 2);
    cache.insert("a".to_string(), 9);
    assert_eq!(cache.len(), 2);
    assert_eq!(cache.get(&"a".to_string()), Some(9));
    assert_eq!(cache.get(&"b".to_string()), Some(2));
}

#[test]
fn test_update_at_capacity_never_evicts() {
    let mut cache = LRUCache::new(2);
    cache.insert("a".to_string(), 1);
    cache.insert("b".to_string(), 2);
    cache.insert("a".to_string(), 10);
    assert_eq!(cache.len(), 2);
    assert_eq!(cache.get(&"b".to_string()), Some(2));
    assert_eq!(cache.get(&"a".to_string()), Some(10));
}

#[test]
fn test_idempotent_lookup() {
    let mut cache = LRUCache::new(2);
    cache.insert("a".to_string(), 1);
    cache.insert("b".to_string(), 2);
    let first = cache.get(&"a".to_string());
    let second = cache.get(&"a".to_string());
    assert_eq!(first, Some(1));
    assert_eq!(second, Some(1));
    assert_eq!(cache.len(), 2);
    assert_eq!(cache.get(&"b".to_string()), Some(2));
}

#[test]
fn test_get_protects_from_eviction() {
    let mut cache = LRUCache::new(2);
    cache.insert("a".to_string(), 1);
    cache.insert("b".to_string(), 2);
    // "a" is the least recently used entry; looking it up promotes it,
    // so the next eviction takes "b" instead.
    assert_eq!(cache.get(&"a".to_string()), Some(1));
    cache.insert("c".to_string(), 3);
    assert_eq!(cache.get(&"a".to_string()), Some(1));
    assert_eq!(cache.get(&"b".to_string()), None);
}

#[test]
fn test_miss_changes_nothing() {
    let mut cache = LRUCache::new(2);
    cache.insert("a".to_string(), 1);
    assert_eq!(cache.get(&"nope".to_string()), None);
    assert_eq!(cache.len(), 1);
    assert_eq!(cache.get(&"a".to_string()), Some(1));
}

#[test]
fn test_distinct_inserts_fill_to_capacity() {
    let mut small = LRUCache::new(3);
    for i in 0..10 {
        small.insert(format!("key-{}", i), i);
    }
    assert_eq!(small.len(), 3);

    let mut large = LRUCache::new(10);
    for i in 0..4 {
        large.insert(format!("key-{}", i), i);
    }
    assert_eq!(large.len(), 4);
}

#[test]
fn test_eviction_follows_recency_order() {
    let mut cache = LRUCache::new(3);
    cache.insert("a".to_string(), 1);
    cache.insert("b".to_string(), 2);
    cache.insert("c".to_string(), 3);
    // Recency order is now c, b, a; each further distinct insert evicts
    // the entry that has gone longest without access.
    cache.insert("d".to_string(), 4);
    assert_eq!(cache.get(&"a".to_string()), None);
    cache.insert("e".to_string(), 5);
    assert_eq!(cache.get(&"b".to_string()), None);
    assert_eq!(cache.get(&"c".to_string()), Some(3));
    assert_eq!(cache.get(&"d".to_string()), Some(4));
    assert_eq!(cache.get(&"e".to_string()), Some(5));
}

#[test]
fn test_reinsert_same_key_repeatedly() {
    let mut cache = LRUCache::new(2);
    for i in 0..5 {
        cache.insert("k".to_string(), i);
    }
    assert_eq!(cache.len(), 1);
    assert_eq!(cache.get(&"k".to_string()), Some(4));
}
