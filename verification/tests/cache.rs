use cricket::cache::Cache;

#[test]
fn a_value_is_reused_only_with_its_tag() {
    let mut cache: Cache<u32> = Cache::new();
    assert!(cache.entry("a").is_none());
    cache.insert("a".to_string(), "v1".to_string(), 10);
    assert_eq!(cache.current("a", "v1"), Some(&10));
    assert_eq!(cache.current("a", "v2"), None);
    assert_eq!(cache.current("b", "v1"), None);
    let entry = cache.entry("a").unwrap();
    assert_eq!(entry.tag, "v1");
    assert_eq!(entry.value, 10);
}

#[test]
fn insertion_replaces_only_its_own_key() {
    let mut cache: Cache<&str> = Cache::new();
    cache.insert("a".to_string(), "1".to_string(), "first");
    cache.insert("b".to_string(), "1".to_string(), "other");
    cache.insert("a".to_string(), "2".to_string(), "second");
    assert_eq!(cache.entries.len(), 2);
    assert_eq!(cache.current("a", "2"), Some(&"second"));
    assert_eq!(cache.current("a", "1"), None);
    assert_eq!(cache.current("b", "1"), Some(&"other"));
}
