use std::collections::hash_map::DefaultHasher;
use std::hash::{Hash, Hasher};
use uuid::Uuid;
use wasi_code_executor::cache::{CacheKey, ExecutionCache};
use wasi_code_executor::types::{ExecuteResponse, Language};

const SECOND: u64 = 1_000_000_000;
const MILLISECOND: u64 = 1_000_000;

fn create_test_response(success: bool) -> ExecuteResponse {
    ExecuteResponse {
        execution_id: Uuid::new_v4(),
        success,
        stdout: "test output".to_string(),
        stderr: String::new(),
        execution_time_ms: 100,
        error: None,
        cached: false,
    }
}

#[test]
fn test_cache_key_hashing() {
    let key1 = CacheKey::new(Language::Python, "print('hello')", Some(5000));
    let key2 = CacheKey::new(Language::Python, "print('hello')", Some(5000));
    let key3 = CacheKey::new(Language::Python, "print('world')", Some(5000));
    let key4 = CacheKey::new(Language::JavaScript, "print('hello')", Some(5000));

    assert_eq!(key1.to_hash_string(), key2.to_hash_string());
    assert_ne!(key1.to_hash_string(), key3.to_hash_string());
    assert_ne!(key1.to_hash_string(), key4.to_hash_string());
}

#[test]
fn test_cache_key_excludes_sandbox_id() {
    let code = "print('test')";
    let key1 = CacheKey::new(Language::Python, code, Some(5000));
    let key2 = CacheKey::new(Language::Python, code, Some(5000));

    assert_eq!(key1.code_hash, key2.code_hash);
    assert_eq!(key1.to_hash_string(), key2.to_hash_string());
}

#[test]
fn test_cache_insert_and_get() {
    let mut cache = ExecutionCache::with_config(100, 60 * SECOND);
    let key = CacheKey::new(Language::Python, "print('test')", Some(5000));
    let response = create_test_response(true);

    assert!(cache.get(&key).is_none());
    cache.insert(&key, response.clone());
    assert_eq!(cache.len(), 1);

    let cached = cache.get(&key).unwrap();
    assert_eq!(cached.success, response.success);
    assert_eq!(cached.stdout, response.stdout);
}

#[test]
fn test_cache_ttl_expiration() {
    let mut cache = ExecutionCache::with_config(100, 100 * MILLISECOND);
    let key = CacheKey::new(Language::Python, "print('test')", Some(5000));
    let response = create_test_response(true);

    cache.insert_at(&key, response, None, 0);
    assert!(cache.get_at(&key, 0).is_some());

    assert!(cache.get_at(&key, 150 * MILLISECOND).is_none());
}

#[test]
fn test_cache_capacity_eviction() {
    let mut cache = ExecutionCache::with_config(3, 60 * SECOND);

    for i in 0..5 {
        let key = CacheKey::new(Language::Python, &format!("print({})", i), Some(5000));
        let response = create_test_response(true);
        cache.insert(&key, response);
    }

    assert_eq!(cache.len(), 3);
}

#[test]
fn test_cache_stats() {
    let mut cache = ExecutionCache::new();
    let key1 = CacheKey::new(Language::Python, "print(1)", Some(5000));
    let key2 = CacheKey::new(Language::Python, "print(2)", Some(5000));
    let response = create_test_response(true);

    cache.insert(&key1, response.clone());

    let _ = cache.get(&key1);
    let _ = cache.get(&key1);
    let _ = cache.get(&key2);

    let stats = cache.stats();
    assert_eq!(stats.hits, 2);
    assert_eq!(stats.misses, 1);
    let hit_rate = stats.hits as f64 / (stats.hits + stats.misses) as f64;
    assert!((hit_rate - 2.0 / 3.0).abs() < 0.001);
}

#[test]
fn test_cache_invalidate_and_clear() {
    let mut cache = ExecutionCache::new();
    let key = CacheKey::new(Language::Python, "print('test')", Some(5000));
    let response = create_test_response(true);

    cache.insert(&key, response);
    assert_eq!(cache.len(), 1);

    cache.invalidate(&key);
    assert_eq!(cache.len(), 0);

    cache.insert(&key, create_test_response(true));
    let cleared = cache.clear();
    assert_eq!(cleared, 1);
    assert!(cache.is_empty());

    let stats = cache.stats();
    assert_eq!(stats.hits, 0);
    assert_eq!(stats.misses, 0);
}

#[test]
fn test_different_timeout_different_keys() {
    let code = "print('test')";
    let key1 = CacheKey::new(Language::Python, code, Some(1000));
    let key2 = CacheKey::new(Language::Python, code, Some(5000));

    assert_ne!(key1.to_hash_string(), key2.to_hash_string());
}

#[test]
fn test_code_hash_consistency() {
    let code = r#"
def hello():
    print("Hello, World!")
    return 42
"#;
    let key1 = CacheKey::new(Language::Python, code, None);
    let key2 = CacheKey::new(Language::Python, code, None);

    assert_eq!(key1.code_hash, key2.code_hash);

    let key3 = CacheKey::new(Language::Python, &code.replace("42", "43"), None);
    assert_ne!(key1.code_hash, key3.code_hash);
}

#[test]
fn test_cleanup_expired() {
    let mut cache = ExecutionCache::with_config(10, 50 * MILLISECOND);

    for i in 0..5 {
        let key = CacheKey::new(Language::Python, &format!("print({})", i), Some(5000));
        cache.insert_at(&key, create_test_response(true), None, 0);
    }

    let cleaned = cache.cleanup_expired_at(100 * MILLISECOND);
    assert_eq!(cleaned, 5);
    assert!(cache.is_empty());
}

#[test]
fn code_hash_is_the_sha256_of_the_code() {
    let key = CacheKey::new(Language::Python, "print('hello')", Some(5000));
    assert_eq!(key.code_hash, "96f43d529af3430cb6b0e2c02f6b38ef1a121e8a31d2d09a3ebb716f2f35c9de");
    let empty = CacheKey::new(Language::Ruby, "", None);
    assert_eq!(empty.code_hash, "e3b0c44298fc1c149afbf4c8996fb92427ae41e4649b934ca495991b7852b855");
}

#[test]
fn hash_string_is_lower_hex_of_the_digest() {
    let key = CacheKey::new(Language::Ruby, "puts 1", Some(10));
    assert_eq!(key.to_hash_string(), format!("{:x}", key.digest()));
}

#[test]
fn lookup_within_ttl_hits_and_after_it_misses() {
    let mut cache = ExecutionCache::with_config(4, 10);
    let key = CacheKey::new(Language::Python, "print(1)", None);
    cache.insert_at(&key, create_test_response(true), None, 100);
    assert!(cache.get_at(&key, 110).is_some());
    assert_eq!(cache.stats().hits, 1);
    assert!(cache.get_at(&key, 111).is_none());
    assert_eq!(cache.stats().misses, 1);
    assert_eq!(cache.len(), 0);
}

#[test]
fn explicit_ttl_overrides_the_default() {
    let mut cache = ExecutionCache::with_config(4, 10);
    let key = CacheKey::new(Language::Python, "print(2)", None);
    cache.insert_at(&key, create_test_response(true), Some(1000), 0);
    assert!(cache.get_at(&key, 500).is_some());
}

#[test]
fn full_cache_drops_expired_entries_before_the_oldest() {
    let mut cache = ExecutionCache::with_config(2, 10);
    let a = CacheKey::new(Language::Python, "a", None);
    let b = CacheKey::new(Language::Python, "b", None);
    let c = CacheKey::new(Language::Python, "c", None);
    cache.insert_at(&a, create_test_response(true), Some(1_000), 0);
    cache.insert_at(&b, create_test_response(true), Some(5), 1);
    cache.insert_at(&c, create_test_response(true), None, 20);
    assert_eq!(cache.len(), 2);
    assert!(cache.get_at(&a, 21).is_some());
    assert!(cache.get_at(&b, 21).is_none());
    assert!(cache.get_at(&c, 21).is_some());
}

#[test]
fn full_cache_evicts_the_oldest_entry() {
    let mut cache = ExecutionCache::with_config(2, 1_000);
    let a = CacheKey::new(Language::Python, "a", None);
    let b = CacheKey::new(Language::Python, "b", None);
    let c = CacheKey::new(Language::Python, "c", None);
    cache.insert_at(&a, create_test_response(true), None, 1);
    cache.insert_at(&b, create_test_response(true), None, 2);
    cache.insert_at(&c, create_test_response(true), None, 3);
    assert_eq!(cache.len(), 2);
    assert!(cache.get_at(&a, 4).is_none());
    assert!(cache.get_at(&b, 4).is_some());
    assert!(cache.get_at(&c, 4).is_some());
}

#[test]
fn default_cache_settings() {
    let cache = ExecutionCache::new();
    let stats = cache.stats();
    assert_eq!(stats.capacity, 1000);
    assert_eq!(stats.default_ttl_seconds, 300);
    assert_eq!(stats.size, 0);
}

#[test]
fn default_cache_is_the_new_cache() {
    let cache = ExecutionCache::default();
    let stats = cache.stats();
    assert_eq!(stats.capacity, 1000);
    assert_eq!(stats.default_ttl_seconds, 300);
    assert_eq!(stats.size, 0);
    assert!(cache.is_empty());
}

#[test]
fn key_digest_is_the_derived_hash() {
    for key in [
        CacheKey::new(Language::Python, "print('hello')", Some(5000)),
        CacheKey::new(Language::JavaScript, "console.log(1)", None),
        CacheKey::new(Language::Ruby, "", Some(0)),
    ] {
        let mut h = DefaultHasher::new();
        key.hash(&mut h);
        assert_eq!(key.digest(), h.finish());
        assert_eq!(key.to_hash_string(), format!("{:x}", h.finish()));
    }
}


#[test]
fn hash_strings_are_short_lowercase_hex() {
    for code in ["", "print(1)", "x = 'y' * 100"] {
        let key = CacheKey::new(Language::Ruby, code, Some(7));
        assert_eq!(key.code_hash.len(), 64);
        let s = key.to_hash_string();
        assert!(1 <= s.len() && s.len() <= 16);
        assert!(s.chars().all(|c| c.is_ascii_digit() || ('a'..='f').contains(&c)));
        assert!(s == "0" || !s.starts_with('0'));
    }
}
