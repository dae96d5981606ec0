use bytes::Bytes;
use redistill::{
    entry_size, eq_ignore_case_3, eq_ignore_case_6, evict_if_needed, format_bytes, get_timestamp,
    Config, ConnectionState, Entry, EvictionPolicy, ShardedStore,
};
use std::sync::atomic::{AtomicU32, Ordering};

fn create_test_store() -> ShardedStore {
    ShardedStore::new(16)
}

fn now() -> u64 {
    get_timestamp()
}

#[test]
fn test_sharded_store_set_and_get() {
    let mut store = create_test_store();
    let key = Bytes::from("test_key");
    let value = Bytes::from("test_value");

    store.set(key.clone(), value.clone(), None, now());

    let result = store.get(&key, now());
    assert!(result.is_some());
    assert_eq!(result.unwrap(), value);
}

#[test]
fn test_store_get_nonexistent() {
    let mut store = create_test_store();
    let key = Bytes::from("nonexistent");

    let result = store.get(&key, now());
    assert!(result.is_none());
}

#[test]
fn test_store_delete() {
    let mut store = create_test_store();
    let key = Bytes::from("delete_me");
    let value = Bytes::from("value");

    store.set(key.clone(), value, None, now());

    let count = store.delete(&[key.clone()]);
    assert_eq!(count, 1);

    let result = store.get(&key, now());
    assert!(result.is_none());
}

#[test]
fn test_store_delete_multiple() {
    let mut store = create_test_store();
    let keys: Vec<Bytes> = (0..5).map(|i| Bytes::from(format!("key{}", i))).collect();

    for key in &keys {
        store.set(key.clone(), Bytes::from("value"), None, now());
    }

    let count = store.delete(&keys);
    assert_eq!(count, 5);

    for key in &keys {
        assert!(store.get(key, now()).is_none());
    }
}

#[test]
fn test_store_overwrite() {
    let mut store = create_test_store();
    let key = Bytes::from("key");
    let value1 = Bytes::from("value1");
    let value2 = Bytes::from("value2");

    store.set(key.clone(), value1, None, now());
    store.set(key.clone(), value2.clone(), None, now());

    let result = store.get(&key, now()).unwrap();
    assert_eq!(result, value2);
}

#[test]
fn test_store_exists() {
    let mut store = create_test_store();
    let key1 = Bytes::from("exists1");
    let key2 = Bytes::from("exists2");
    let key3 = Bytes::from("not_exists");

    store.set(key1.clone(), Bytes::from("v1"), None, now());
    store.set(key2.clone(), Bytes::from("v2"), None, now());

    let count = store.exists_keys(&[key1, key2, key3], now());
    assert_eq!(count, 2);
}

#[test]
fn test_store_len() {
    let mut store = create_test_store();

    assert_eq!(store.len(), 0);

    for i in 0..10 {
        store.set(Bytes::from(format!("key{}", i)), Bytes::from("value"), None, now());
    }

    assert_eq!(store.len(), 10);
}

#[test]
fn test_store_flush() {
    let mut store = create_test_store();

    for i in 0..100 {
        store.set(Bytes::from(format!("key{}", i)), Bytes::from("value"), None, now());
    }

    assert_eq!(store.len(), 100);

    store.clear();

    assert_eq!(store.len(), 0);
}

#[test]
fn test_store_ttl_expiration() {
    let mut store = create_test_store();
    let key = Bytes::from("expiring_key");
    let value = Bytes::from("value");

    let timestamp = now();
    store.set(key.clone(), value.clone(), Some(1), timestamp);

    assert!(store.get(&key, timestamp).is_some());

    let future = timestamp + 2;
    assert!(store.get(&key, future).is_none());
}

#[test]
fn test_ttl_edge_cases() {
    let mut store = create_test_store();
    let key = Bytes::from("ttl_test");
    let value = Bytes::from("value");

    let timestamp = now();
    store.set(key.clone(), value.clone(), Some(0), timestamp);

    assert!(store.get(&key, timestamp).is_none());
}

#[test]
fn test_multiple_ttl_keys() {
    let mut store = create_test_store();
    let timestamp = now();

    store.set(Bytes::from("ttl1"), Bytes::from("v1"), Some(1), timestamp);
    store.set(Bytes::from("ttl5"), Bytes::from("v5"), Some(5), timestamp);
    store.set(Bytes::from("ttl10"), Bytes::from("v10"), Some(10), timestamp);

    let future2 = timestamp + 2;
    assert!(store.get(&Bytes::from("ttl1"), future2).is_none());
    assert!(store.get(&Bytes::from("ttl5"), future2).is_some());
    assert!(store.get(&Bytes::from("ttl10"), future2).is_some());

    let future6 = timestamp + 6;
    assert!(store.get(&Bytes::from("ttl1"), future6).is_none());
    assert!(store.get(&Bytes::from("ttl5"), future6).is_none());
    assert!(store.get(&Bytes::from("ttl10"), future6).is_some());

    let future11 = timestamp + 11;
    assert!(store.get(&Bytes::from("ttl1"), future11).is_none());
    assert!(store.get(&Bytes::from("ttl5"), future11).is_none());
    assert!(store.get(&Bytes::from("ttl10"), future11).is_none());
}

#[test]
fn test_overwrite_with_ttl() {
    let mut store = create_test_store();
    let key = Bytes::from("key");
    let timestamp = now();

    store.set(key.clone(), Bytes::from("v1"), None, timestamp);
    assert!(store.get(&key, timestamp + 100).is_some());

    store.set(key.clone(), Bytes::from("v2"), Some(5), timestamp);
    assert!(store.get(&key, timestamp).is_some());
    assert!(store.get(&key, timestamp + 6).is_none());
}

#[test]
fn test_eq_ignore_case_3() {
    assert!(eq_ignore_case_3(b"GET", b"get"));
    assert!(eq_ignore_case_3(b"set", b"set"));
    assert!(eq_ignore_case_3(b"SET", b"set"));
    assert!(eq_ignore_case_3(b"Del", b"del"));
    assert!(!eq_ignore_case_3(b"get", b"set"));
}

#[test]
fn test_eq_ignore_case_6() {
    assert!(eq_ignore_case_6(b"EXISTS", b"exists"));
    assert!(eq_ignore_case_6(b"dbsize", b"dbsize"));
    assert!(eq_ignore_case_6(b"DBSIZE", b"dbsize"));
    assert!(!eq_ignore_case_6(b"exists", b"dbsize"));
}

#[test]
fn test_entry_size_calculation() {
    let size = entry_size(10, 100);
    assert_eq!(size, 174);
}

#[test]
fn test_format_bytes() {
    assert_eq!(format_bytes(500), "500B");
    assert_eq!(format_bytes(1024), "1.00KB");
    assert_eq!(format_bytes(1024 * 1024), "1.00MB");
    assert_eq!(format_bytes(1024 * 1024 * 1024), "1.00GB");
}

#[test]
fn test_eviction_policy_from_str() {
    assert_eq!(EvictionPolicy::from_str("allkeys-lru"), EvictionPolicy::AllKeysLru);
    assert_eq!(EvictionPolicy::from_str("allkeys-random"), EvictionPolicy::AllKeysRandom);
    assert_eq!(EvictionPolicy::from_str("noeviction"), EvictionPolicy::NoEviction);
    assert_eq!(EvictionPolicy::from_str("unknown"), EvictionPolicy::AllKeysLru);
}

#[test]
fn test_eviction_policy_as_str() {
    assert_eq!(EvictionPolicy::AllKeysLru.as_str(), "allkeys-lru");
    assert_eq!(EvictionPolicy::AllKeysRandom.as_str(), "allkeys-random");
    assert_eq!(EvictionPolicy::NoEviction.as_str(), "noeviction");
}

#[test]
fn test_memory_limit_zero_cost() {
    let mut store = create_test_store();

    let result = evict_if_needed(&mut store, 999999999);
    assert!(result);
}

#[test]
fn test_config_defaults() {
    let config = Config::default();

    assert_eq!(config.server.bind, "127.0.0.1");
    assert_eq!(config.server.port, 6379);
    assert_eq!(config.server.num_shards, 256);
    assert_eq!(config.server.batch_size, 16);
    assert_eq!(config.server.max_connections, 10000);
    assert_eq!(config.memory.max_memory, 0);
    assert_eq!(config.memory.eviction_policy, "allkeys-lru");
    assert_eq!(config.security.password, "");
    assert_eq!(config.security.tls_enabled, false);
}

#[test]
fn test_connection_state_default() {
    let state = ConnectionState::new();
    assert!(state.authenticated);
}

#[test]
fn test_delete_nonexistent_keys() {
    let mut store = create_test_store();

    let keys = vec![Bytes::from("nonexistent1"), Bytes::from("nonexistent2")];

    let count = store.delete(&keys);
    assert_eq!(count, 0);
}

#[test]
fn test_mixed_delete() {
    let mut store = create_test_store();

    store.set(Bytes::from("exists1"), Bytes::from("v1"), None, now());
    store.set(Bytes::from("exists2"), Bytes::from("v2"), None, now());

    let keys = vec![
        Bytes::from("exists1"),
        Bytes::from("nonexistent1"),
        Bytes::from("exists2"),
        Bytes::from("nonexistent2"),
    ];

    let count = store.delete(&keys);
    assert_eq!(count, 2);
}

#[test]
fn test_stress_delete() {
    let mut store = create_test_store();

    for i in 0..1000 {
        store.set(Bytes::from(format!("key{}", i)), Bytes::from("value"), None, now());
    }

    let keys: Vec<Bytes> = (0..1000).map(|i| Bytes::from(format!("key{}", i))).collect();

    let count = store.delete(&keys);
    assert_eq!(count, 1000);
    assert_eq!(store.len(), 0);
}

#[test]
fn test_large_values() {
    let mut store = create_test_store();

    let key = Bytes::from("large_key");
    let large_value = Bytes::from(vec![b'X'; 1024 * 1024]);

    store.set(key.clone(), large_value.clone(), None, now());

    let result = store.get(&key, now()).unwrap();
    assert_eq!(result.len(), 1024 * 1024);
    assert_eq!(result, large_value);
}

#[test]
fn test_many_keys() {
    let mut store = create_test_store();

    for i in 0..10000 {
        store.set(
            Bytes::from(format!("key{}", i)),
            Bytes::from(format!("value{}", i)),
            None,
            now(),
        );
    }

    assert_eq!(store.len(), 10000);

    for i in (0..10000).step_by(1000) {
        let key = Bytes::from(format!("key{}", i));
        let expected = Bytes::from(format!("value{}", i));
        assert_eq!(store.get(&key, now()).unwrap(), expected);
    }
}

#[test]
fn test_empty_key() {
    let mut store = create_test_store();
    let empty_key = Bytes::from("");
    let value = Bytes::from("value");

    store.set(empty_key.clone(), value.clone(), None, now());

    let result = store.get(&empty_key, now());
    assert!(result.is_some());
    assert_eq!(result.unwrap(), value);
}

#[test]
fn test_binary_values() {
    let mut store = create_test_store();
    let key = Bytes::from("binary");

    let binary_value = Bytes::from(vec![0u8, 1, 2, 255, 254, 0, 0, 128]);

    store.set(key.clone(), binary_value.clone(), None, now());

    let result = store.get(&key, now()).unwrap();
    assert_eq!(result, binary_value);
}

#[test]
fn test_unicode_keys_and_values() {
    let mut store = create_test_store();

    let key = Bytes::from("키");
    let value = Bytes::from("值");

    store.set(key.clone(), value.clone(), None, now());

    let result = store.get(&key, now()).unwrap();
    assert_eq!(result, value);
}

#[test]
fn test_shard_distribution() {
    let mut store = create_test_store();

    for i in 0..100 {
        store.set(Bytes::from(format!("key{}", i)), Bytes::from("value"), None, now());
    }

    let mut shards_used = 0;
    for shard in &store.shards {
        if !shard.is_empty() {
            shards_used += 1;
        }
    }

    assert!(shards_used > 10);
}

#[test]
fn test_entry_clone() {
    let entry1 = Entry {
        value: Bytes::from("test"),
        expiry: Some(12345),
        last_accessed: AtomicU32::new(100),
    };

    let entry2 = entry1.clone();

    assert_eq!(entry1.value, entry2.value);
    assert_eq!(entry1.expiry, entry2.expiry);
    assert_eq!(
        entry1.last_accessed.load(Ordering::Relaxed),
        entry2.last_accessed.load(Ordering::Relaxed)
    );
}
