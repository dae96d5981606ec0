use bytes::Bytes;
use redistill::{
    format_bytes, get_uptime_seconds, Admission, EvictionPolicy, MemoryConfig, MemoryLimits,
    ShardedStore,
};

#[test]
fn value_without_expiry_persists() {
    let mut store = ShardedStore::new(8);
    store.set(Bytes::from("k"), Bytes::from("v"), None, 100);
    store.set(Bytes::from("other"), Bytes::from("w"), Some(1), 100);
    store.delete(&[Bytes::from("other")]);
    for t in [100u64, 101, 5_000_000, u64::MAX] {
        assert_eq!(store.get(b"k", t), Some(Bytes::from("v")));
    }
}

#[test]
fn expiry_boundary() {
    let mut store = ShardedStore::new(8);
    store.set(Bytes::from("k"), Bytes::from("v"), Some(3), 100);
    assert!(store.get(b"k", 102).is_some());
    assert!(store.get(b"k", 103).is_none());
    assert_eq!(store.len(), 0);
}

#[test]
fn huge_ttl_saturates() {
    let mut store = ShardedStore::new(8);
    store.set(Bytes::from("k"), Bytes::from("v"), Some(u64::MAX), 100);
    assert!(store.get(b"k", u64::MAX - 1).is_some());
}

#[test]
fn delete_counts_distinct_present_keys() {
    let mut store = ShardedStore::new(4);
    store.set(Bytes::from("a"), Bytes::from("1"), None, 0);
    store.set(Bytes::from("b"), Bytes::from("2"), None, 0);
    let count = store.delete(&[Bytes::from("a"), Bytes::from("a"), Bytes::from("z")]);
    assert_eq!(count, 1);
    assert!(store.get(b"a", 0).is_none());
    assert!(store.get(b"b", 0).is_some());
}

#[test]
fn exists_leaves_expired_entries() {
    let mut store = ShardedStore::new(4);
    store.set(Bytes::from("gone"), Bytes::from("1"), Some(1), 10);
    store.set(Bytes::from("here"), Bytes::from("2"), None, 10);
    let keys = [Bytes::from("gone"), Bytes::from("here"), Bytes::from("here")];
    assert_eq!(store.exists_keys(&keys, 20), 2);
    assert_eq!(store.len(), 2);
}

#[test]
fn keys_lists_live_entries_once() {
    let mut store = ShardedStore::new(4);
    assert!(store.keys(0).is_empty());
    store.set(Bytes::from("a"), Bytes::from("1"), None, 10);
    store.set(Bytes::from("b"), Bytes::from("2"), Some(5), 10);
    store.set(Bytes::from("c"), Bytes::from("3"), None, 10);
    let mut keys = store.keys(20);
    keys.sort();
    assert_eq!(keys, vec![Bytes::from("a"), Bytes::from("c")]);
}

#[test]
fn len_sums_shards_and_clear_empties() {
    let mut store = ShardedStore::new(3);
    for i in 0..30 {
        store.set(Bytes::from(format!("k{}", i)), Bytes::from("v"), None, 0);
    }
    let total: usize = store.shards.iter().map(|s| s.len()).sum();
    assert_eq!(store.len(), total);
    assert_eq!(total, 30);
    store.clear();
    assert_eq!(store.len(), 0);
}

#[test]
fn shard_index_is_fnv1a() {
    let store = ShardedStore::new(1000);
    assert_eq!(store.hash(b""), 37);
    assert_eq!(store.hash(b"a"), 996);
    assert_eq!(store.hash(b"foo"), 407);
    let other = ShardedStore::new(16);
    assert_eq!(other.hash(b"foo"), 7);
    assert_eq!(other.hash(b"foo"), ShardedStore::new(16).hash(b"foo"));
}

#[test]
fn interleaved_writers_of_disjoint_keys() {
    let mut store = ShardedStore::new(16);
    for round in 0..10 {
        for writer in 0..4 {
            let key = Bytes::from(format!("w{}-{}", writer, round % 5));
            let value = Bytes::from(format!("{}:{}", writer, round));
            store.set(key, value, None, 0);
        }
    }
    assert_eq!(store.len(), 20);
    for writer in 0..4 {
        for slot in 0..5 {
            let key = format!("w{}-{}", writer, slot);
            let expected = Bytes::from(format!("{}:{}", writer, slot + 5));
            assert_eq!(store.get(key.as_bytes(), 0), Some(expected));
        }
    }
}

#[test]
fn store_clone_is_independent() {
    let mut store = ShardedStore::new(4);
    store.set(Bytes::from("k"), Bytes::from("v"), None, 0);
    let mut copy = store.clone();
    copy.set(Bytes::from("k2"), Bytes::from("v2"), None, 0);
    assert_eq!(copy.get(b"k", 0), Some(Bytes::from("v")));
    assert_eq!(store.len(), 1);
    assert_eq!(copy.len(), 2);
}

#[test]
fn format_bytes_rounding() {
    assert_eq!(format_bytes(0), "0B");
    assert_eq!(format_bytes(1023), "1023B");
    assert_eq!(format_bytes(1536), "1.50KB");
    assert_eq!(format_bytes(1152), "1.12KB");
    assert_eq!(format_bytes(1408), "1.38KB");
    assert_eq!(format_bytes(5 * 1024 * 1024 * 1024), "5.00GB");
}

#[test]
fn policy_names_ignore_case() {
    assert_eq!(EvictionPolicy::from_str("NOEVICTION"), EvictionPolicy::NoEviction);
    assert_eq!(EvictionPolicy::from_str("AllKeys-Random"), EvictionPolicy::AllKeysRandom);
    assert_eq!(EvictionPolicy::from_lowercase("NOEVICTION"), EvictionPolicy::AllKeysLru);
    let limits = MemoryLimits::from_config(&MemoryConfig {
        max_memory: 10,
        eviction_policy: "NoEviction".to_string(),
        eviction_sample_size: 3,
    });
    assert_eq!(limits.policy, EvictionPolicy::NoEviction);
    assert_eq!(limits.max_memory, 10);
    assert_eq!(limits.sample_size, 3);
}

#[test]
fn uptime_seconds() {
    assert_eq!(get_uptime_seconds(0, 500), 0);
    assert_eq!(get_uptime_seconds(100, 500), 400);
    assert_eq!(get_uptime_seconds(600, 500), 0);
}

#[test]
fn admission_caps_and_rate() {
    let mut adm = Admission::new(2, 0);
    assert!(adm.try_admit(10));
    adm.connection_opened();
    assert!(adm.try_admit(10));
    adm.connection_opened();
    assert!(!adm.try_admit(10));
    assert_eq!(adm.rejected, 1);
    adm.connection_closed();
    assert!(adm.try_admit(10));
    assert_eq!(adm.total, 2);
    assert_eq!(adm.active, 1);

    let mut rate = Admission::new(0, 2);
    assert!(rate.try_admit(5));
    assert!(rate.try_admit(5));
    assert!(!rate.try_admit(5));
    assert!(rate.try_admit(6));
    assert_eq!(rate.rejected, 1);
}

#[test]
fn lru_eviction_removes_a_present_key() {
    let limits = MemoryLimits { max_memory: 1, policy: EvictionPolicy::AllKeysLru, sample_size: 5 };
    let mut store = ShardedStore::with_limits(1, limits, 0);
    store.set(Bytes::from("k"), Bytes::from("vv"), None, 0);
    store.memory_used = 67;
    let freed = redistill::evict_lru(&mut store);
    assert_eq!(freed, 67);
    assert_eq!(store.len(), 0);
    assert_eq!(store.memory_used, 0);
    assert_eq!(store.evicted_keys, 1);
    assert_eq!(redistill::evict_random(&mut store), 0);
}

#[test]
fn lru_without_samples_evicts_nothing() {
    let limits = MemoryLimits { max_memory: 1, policy: EvictionPolicy::AllKeysLru, sample_size: 0 };
    let mut store = ShardedStore::with_limits(1, limits, 0);
    store.set(Bytes::from("k"), Bytes::from("v"), None, 0);
    assert_eq!(redistill::evict_lru(&mut store), 0);
    assert_eq!(store.len(), 1);
    assert!(!redistill::evict_if_needed(&mut store, 10));
    assert_eq!(store.evicted_keys, 0);
}

#[test]
fn eviction_admits_when_one_entry_covers_the_need() {
    let limits = MemoryLimits { max_memory: 100, policy: EvictionPolicy::AllKeysLru, sample_size: 3 };
    let mut store = ShardedStore::with_limits(1, limits, 0);
    store.set(Bytes::from("a"), Bytes::from("xyz"), None, 0);
    store.memory_used = 100;
    assert!(redistill::evict_if_needed(&mut store, 50));
    assert_eq!(store.len(), 0);
    assert_eq!(store.memory_used, 32);
    assert_eq!(store.evicted_keys, 1);
}
