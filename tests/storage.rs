use paper_broker::storage::{cache_key_for_news, cache_key_for_ohlc, cache_key_for_quote, CacheMetadata, FileCache};

#[test]
fn test_cache_key_sanitization() {
    let cache = FileCache::with_dir("/tmp/test");
    let path = cache.get_file_path("AAPL/2023-01-01/2023-12-31");
    assert!(path.contains("AAPL_2023-01-01_2023-12-31"));
    assert_eq!(path, "/tmp/test/AAPL_2023-01-01_2023-12-31.json");
    assert_eq!(cache.metadata_file, "/tmp/test/metadata.json");
}

#[test]
fn cache_keys() {
    assert_eq!(cache_key_for_ohlc("AAPL", "2023-01-01", "2023-12-31", "1day"), "ohlc_AAPL_2023-01-01_2023-12-31_1day");
    assert_eq!(cache_key_for_quote("AAPL"), "quote_AAPL");
    assert_eq!(cache_key_for_news("AAPL", 7), "news_AAPL_7");
    assert_eq!(cache_key_for_news("AAPL", 1234), "news_AAPL_1234");
    assert_eq!(cache_key_for_news("X", 0), "news_X_0");
}

fn meta(key: &str, size: u64, created: i64, access: u64) -> CacheMetadata {
    CacheMetadata { key: key.to_string(), size_bytes: size, created_at: created, last_accessed: created, access_count: access, expires_at: None }
}

#[test]
fn cache_stats_keys_and_clear() {
    let mut cache = FileCache::with_dir("/tmp/c");
    let empty = cache.get_stats();
    assert_eq!(empty.total_entries, 0);
    assert_eq!(empty.oldest_entry_timestamp, None);
    cache.metadata.push(meta("a", 10, 50, 3));
    cache.metadata.push(meta("b", 20, 40, 9));
    cache.metadata.push(meta("c", 5, 60, 1));
    let stats = cache.get_stats();
    assert_eq!(stats.total_entries, 3);
    assert_eq!(stats.total_size_bytes, 35);
    assert_eq!(stats.oldest_entry_timestamp, Some(40));
    assert_eq!(stats.max_access_count, 9);
    assert_eq!(cache.get_keys(), vec!["a".to_string(), "b".to_string(), "c".to_string()]);
    let removed = cache.clear();
    assert_eq!(removed.len(), 3);
    assert!(cache.get_keys().is_empty());
}

#[test]
fn expired_entries_are_listed_and_forgotten() {
    let mut cache = FileCache::with_dir("/tmp/c");
    let mut a = meta("a", 1, 0, 0);
    a.expires_at = Some(100);
    let mut b = meta("b", 1, 0, 0);
    b.expires_at = Some(300);
    cache.metadata.push(a);
    cache.metadata.push(b);
    cache.metadata.push(meta("c", 1, 0, 0));
    assert_eq!(cache.expired_keys(200), vec!["a".to_string()]);
    assert!(cache.expired_keys(100).is_empty());
    cache.forget("a");
    assert_eq!(cache.get_keys(), vec!["b".to_string(), "c".to_string()]);
}
