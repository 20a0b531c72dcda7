use shared_cache::cache::ThreadSafeCache;

#[test]
fn read_after_write_returns_value() {
    let mut cache = ThreadSafeCache::new();
    cache.write("key0".to_string(), "value0".to_string());
    assert_eq!(cache.read("key0"), "value0");
}

#[test]
fn read_after_several_writes_returns_each_value() {
    let mut cache = ThreadSafeCache::new();
    for i in 0..5 {
        cache.write(format!("key{}", i), format!("value{}", i));
    }
    for i in 0..5 {
        assert_eq!(cache.read(&format!("key{}", i)), format!("value{}", i));
    }
}

#[test]
fn absent_key_returns_not_found() {
    let cache = ThreadSafeCache::new();
    assert_eq!(cache.read("key0"), "Not found");
}

#[test]
fn absent_key_stays_not_found_after_other_writes() {
    let mut cache = ThreadSafeCache::new();
    cache.write("key0".to_string(), "value0".to_string());
    cache.write("key1".to_string(), "value1".to_string());
    assert_eq!(cache.read("key7"), "Not found");
}

#[test]
fn overwrite_returns_latest_value() {
    let mut cache = ThreadSafeCache::new();
    cache.write("key0".to_string(), "value0".to_string());
    cache.write("key0".to_string(), "replacement".to_string());
    assert_eq!(cache.read("key0"), "replacement");
    assert_eq!(cache.size(), 1);
}

#[test]
fn size_of_empty_cache_is_zero() {
    let cache = ThreadSafeCache::new();
    assert_eq!(cache.size(), 0);
}

#[test]
fn size_counts_distinct_keys_only() {
    let mut cache = ThreadSafeCache::new();
    for i in 0..5 {
        cache.write(format!("key{}", i), format!("value{}", i));
    }
    assert_eq!(cache.size(), 5);
    // Reads do not change the size.
    let _ = cache.read("key2");
    let _ = cache.read("missing");
    assert_eq!(cache.size(), 5);
    // Overwriting existing keys does not change the size.
    cache.write("key2".to_string(), "other".to_string());
    assert_eq!(cache.size(), 5);
    // A sixth distinct key grows it by one.
    cache.write("key5".to_string(), "value5".to_string());
    assert_eq!(cache.size(), 6);
}

#[test]
fn empty_key_and_value_are_ordinary_entries() {
    let mut cache = ThreadSafeCache::new();
    cache.write(String::new(), String::new());
    assert_eq!(cache.read(""), "");
    assert_eq!(cache.size(), 1);
}

#[test]
fn stored_sentinel_text_is_returned_like_any_value() {
    let mut cache = ThreadSafeCache::new();
    cache.write("key0".to_string(), "Not found".to_string());
    assert_eq!(cache.read("key0"), "Not found");
    assert_eq!(cache.size(), 1);
}
