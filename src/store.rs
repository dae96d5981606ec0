//! The sharded keyspace: byte-string keys spread over a fixed number of
//! shards by an FNV-1a hash, each entry with an optional absolute expiry.
use bytes::Bytes;
use dashmap::DashMap;
use std::ops::Deref;
use std::sync::atomic::{AtomicU32, Ordering};
use vstd::prelude::*;

use crate::config::{policy_named, EvictionPolicy, MemoryConfig};
use crate::foreign::{
    bytes_view, lower_of, entry_view, random_percent, shard_clear, shard_clone, shard_entries, shard_get,
    shard_insert, shard_len, shard_new, shard_remove, shard_touch, shard_view,
};

verus! {

pub const FNV_OFFSET_BASIS: u64 = 0xcbf29ce484222325;

pub const FNV_PRIME: u64 = 0x100000001b3;

/// Bytes counted for each entry beyond its key and value.
pub const ENTRY_OVERHEAD: usize = 64;

/// What the keyspace holds: for each key, its value bytes and expiry.
pub type StoreModel = Map<Seq<u8>, (Seq<u8>, Option<u64>)>;

/// The 64-bit FNV-1a hash of a byte string.
pub open spec fn fnv1a(key: Seq<u8>) -> u64
    decreases key.len(),
{
    if key.len() == 0 {
        FNV_OFFSET_BASIS
    } else {
        (fnv1a(key.drop_last()) ^ (key.last() as u64)).wrapping_mul(FNV_PRIME)
    }
}

/// The shard, among `n`, that holds a key.
pub open spec fn shard_index(key: Seq<u8>, n: nat) -> int {
    (fnv1a(key) as int) % (n as int)
}

/// The absolute expiry of an entry written at `now` with an optional time to
/// live; a sum beyond the largest second saturates.
pub open spec fn expiry_for(ttl: Option<u64>, now: u64) -> Option<u64> {
    match ttl {
        Some(s) => Some(
            if now + s > u64::MAX {
                u64::MAX
            } else {
                (now + s) as u64
            },
        ),
        None => None,
    }
}

/// An entry is live at `now` when it has no expiry or its expiry is later.
pub open spec fn is_live(e: (Seq<u8>, Option<u64>), now: u64) -> bool {
    match e.1 {
        Some(x) => now < x,
        None => true,
    }
}

/// The keyspace after a write.
pub open spec fn set_model(m: StoreModel, k: Seq<u8>, v: Seq<u8>, ttl: Option<u64>, now: u64) -> StoreModel {
    m.insert(k, (v, expiry_for(ttl, now)))
}

/// What a read returns: the value of a live entry, else nothing.
pub open spec fn get_result(m: StoreModel, k: Seq<u8>, now: u64) -> Option<Seq<u8>> {
    if m.contains_key(k) && is_live(m[k], now) {
        Some(m[k].0)
    } else {
        None
    }
}

/// The keyspace after a read: an expired entry that the read found is gone.
pub open spec fn after_get(m: StoreModel, k: Seq<u8>, now: u64) -> StoreModel {
    if m.contains_key(k) && !is_live(m[k], now) {
        m.remove(k)
    } else {
        m
    }
}

/// How many of the listed keys, counted with repetition, have a live entry.
pub open spec fn live_count(m: StoreModel, keys: Seq<Seq<u8>>, now: u64) -> nat
    decreases keys.len(),
{
    if keys.len() == 0 {
        0
    } else {
        live_count(m, keys.drop_last(), now) + if m.contains_key(keys.last()) && is_live(
            m[keys.last()],
            now,
        ) {
            1nat
        } else {
            0nat
        }
    }
}

/// The keys that have a live entry.
pub open spec fn live_keys(m: StoreModel, now: u64) -> Set<Seq<u8>> {
    m.dom().filter(|k: Seq<u8>| is_live(m[k], now))
}

/// The byte strings that a sequence of handles refers to.
pub open spec fn keys_view(keys: Seq<Bytes>) -> Seq<Seq<u8>> {
    keys.map_values(|b: Bytes| bytes_view(b))
}

/// Whether index `j` was placed in bucket `s`.
spec fn in_bucket(buckets: Seq<Vec<usize>>, s: int, j: int) -> bool {
    exists|t: int| 0 <= t < buckets[s]@.len() && buckets[s]@[t] == j
}

/// The total of the sizes of the first `upto` shards.
pub open spec fn sizes_sum(shards: Seq<DashMap<Bytes, Entry>>, upto: int) -> nat
    decreases upto,
{
    if upto <= 0 {
        0
    } else {
        sizes_sum(shards, upto - 1) + shard_view(shards[upto - 1]).len()
    }
}

/// The bytes of an optional handle.
pub open spec fn opt_view(r: Option<Bytes>) -> Option<Seq<u8>> {
    match r {
        Some(b) => Some(bytes_view(b)),
        None => None,
    }
}

/// A stored value with its optional absolute expiry (seconds since the Unix
/// epoch) and the uptime second of its last recorded access.
pub struct Entry {
    pub value: Bytes,
    pub expiry: Option<u64>,
    pub last_accessed: AtomicU32,
}

impl Clone for Entry {
    /// A new handle to the same value bytes, with the same expiry and access time.
    fn clone(&self) -> (r: Self)
        ensures
            entry_view(r) == entry_view(*self),
    {
        Entry {
            value: self.value.clone(),
            expiry: self.expiry,
            last_accessed: AtomicU32::new(self.last_accessed.load(Ordering::Relaxed)),
        }
    }
}

/// The memory budget that writes are admitted against.
#[derive(Debug, Clone, Copy)]
pub struct MemoryLimits {
    /// Budget in bytes; 0 means unbounded.
    pub max_memory: u64,
    pub policy: EvictionPolicy,
    /// Shards sampled per LRU eviction round.
    pub sample_size: usize,
}

impl MemoryLimits {
    /// The budget that a memory configuration describes.
    pub fn from_config(c: &MemoryConfig) -> (r: Self)
        ensures
            r.max_memory == c.max_memory,
            r.policy == policy_named(lower_of(c.eviction_policy@)),
            r.sample_size == c.eviction_sample_size,
    {
        MemoryLimits {
            max_memory: c.max_memory,
            policy: EvictionPolicy::from_str(c.eviction_policy.as_str()),
            sample_size: c.eviction_sample_size,
        }
    }

    /// No budget: every write is admitted.
    pub fn unbounded() -> (r: Self)
        ensures
            r.max_memory == 0,
            r.policy == EvictionPolicy::AllKeysLru,
            r.sample_size == 5,
    {
        MemoryLimits { max_memory: 0, policy: EvictionPolicy::AllKeysLru, sample_size: 5 }
    }
}

/// Seconds since the server started at `start`: 0 while the start is
/// unknown (`start == 0`), else the elapsed seconds, never negative, kept to
/// their low 32 bits.
pub open spec fn get_uptime_seconds_spec(start: u32, now: u64) -> u32 {
    if start == 0 {
        0
    } else if now >= start {
        (now - start) as u32
    } else {
        0
    }
}

/// Seconds since the server started, for access tracking.
pub fn get_uptime_seconds(start: u32, now: u64) -> (r: u32)
    ensures
        r == get_uptime_seconds_spec(start, now),
{
    if start == 0 {
        return 0;
    }
    now.saturating_sub(start as u64) as u32
}

/// A fixed number of shards, each a concurrent map from key to entry, with
/// the memory accounting that the eviction rules use.
pub struct ShardedStore {
    pub shards: Vec<DashMap<Bytes, Entry>>,
    pub num_shards: usize,
    pub limits: MemoryLimits,
    /// Approximate bytes held, counted while a budget is set.
    pub memory_used: u64,
    pub evicted_keys: u64,
    /// Wall-clock second at which the server started; 0 when unknown.
    pub start_time: u32,
}

impl View for ShardedStore {
    type V = StoreModel;

    /// Each key is looked up in the one shard that its hash selects.
    open spec fn view(&self) -> StoreModel {
        Map::new(
            |k: Seq<u8>|
                shard_view(self.shards@[shard_index(k, self.num_shards as nat)]).contains_key(k),
            |k: Seq<u8>| shard_view(self.shards@[shard_index(k, self.num_shards as nat)])[k],
        )
    }
}

impl ShardedStore {
    /// The shard count is fixed and positive, and every shard holds only keys
    /// that hash to it.
    pub open spec fn wf(&self) -> bool {
        &&& self.num_shards > 0
        &&& self.shards@.len() == self.num_shards
        &&& forall|i: int|
            0 <= i < self.shards@.len() ==> #[trigger] shard_view(self.shards@[i]).dom().finite()
        &&& forall|i: int, k: Seq<u8>|
            0 <= i < self.shards@.len() && #[trigger] shard_view(self.shards@[i]).contains_key(k)
                ==> shard_index(k, self.num_shards as nat) == i
    }

    /// The number of entries over all shards, capped at the largest `usize`.
    pub open spec fn counted_len(&self) -> nat {
        if sizes_sum(self.shards@, self.num_shards as int) > usize::MAX {
            usize::MAX as nat
        } else {
            sizes_sum(self.shards@, self.num_shards as int)
        }
    }

    /// Everything but the entries is as in `other`.
    pub open spec fn same_accounting(&self, other: &ShardedStore) -> bool {
        &&& self.num_shards == other.num_shards
        &&& self.limits == other.limits
        &&& self.memory_used == other.memory_used
        &&& self.evicted_keys == other.evicted_keys
        &&& self.start_time == other.start_time
    }

    /// An empty store of `num_shards` shards, with no memory budget.
    pub fn new(num_shards: usize) -> (r: Self)
        requires
            num_shards > 0,
        ensures
            r.wf(),
            r@ == StoreModel::empty(),
            r.num_shards == num_shards,
            r.limits.max_memory == 0,
            r.memory_used == 0,
            r.evicted_keys == 0,
            r.start_time == 0,
    {
        Self::with_limits(num_shards, MemoryLimits::unbounded(), 0)
    }

    /// An empty store of `num_shards` shards under a memory budget, for a
    /// server started at wall-clock second `start_time`.
    pub fn with_limits(num_shards: usize, limits: MemoryLimits, start_time: u32) -> (r: Self)
        requires
            num_shards > 0,
        ensures
            r.wf(),
            r@ == StoreModel::empty(),
            r.num_shards == num_shards,
            r.limits == limits,
            r.memory_used == 0,
            r.evicted_keys == 0,
            r.start_time == start_time,
    {
        let mut shards: Vec<DashMap<Bytes, Entry>> = Vec::with_capacity(num_shards);
        let mut i: usize = 0;
        while i < num_shards
            invariant
                i <= num_shards,
                shards@.len() == i,
                forall|j: int| 0 <= j < i ==> #[trigger] shard_view(shards@[j]) == StoreModel::empty(),
            decreases num_shards - i,
        {
            shards.push(shard_new());
            i += 1;
        }
        let r = ShardedStore {
            shards,
            num_shards,
            limits,
            memory_used: 0,
            evicted_keys: 0,
            start_time,
        };
        assert(r@ =~= StoreModel::empty());
        r
    }

    /// The shard that holds `key`: its FNV-1a hash modulo the shard count.
    pub fn hash(&self, key: &[u8]) -> (r: usize)
        requires
            self.num_shards > 0,
        ensures
            r == shard_index(key@, self.num_shards as nat),
            r < self.num_shards,
    {
        let mut h: u64 = FNV_OFFSET_BASIS;
        let mut i: usize = 0;
        while i < key.len()
            invariant
                i <= key.len(),
                h == fnv1a(key@.subrange(0, i as int)),
            decreases key.len() - i,
        {
            assert(key@.subrange(0, i as int + 1).drop_last() == key@.subrange(0, i as int));
            h = (h ^ (key[i] as u64)).wrapping_mul(FNV_PRIME);
            i += 1;
        }
        assert(key@.subrange(0, key@.len() as int) == key@);
        (h % (self.num_shards as u64)) as usize
    }

    /// Stores `value` under `key`, replacing any entry there, to expire `ttl`
    /// seconds after `now` when a time to live is given.
    pub fn set(&mut self, key: Bytes, value: Bytes, ttl: Option<u64>, now: u64)
        requires
            old(self).wf(),
        ensures
            final(self).wf(),
            final(self).same_accounting(old(self)),
            final(self)@ == set_model(old(self)@, bytes_view(key), bytes_view(value), ttl, now),
    {
        let expiry = match ttl {
            Some(s) => Some(now.saturating_add(s)),
            None => None,
        };
        let idx = self.hash(key.deref());
        let ghost k = bytes_view(key);
        let ghost e = (bytes_view(value), expiry);
        let entry = Entry {
            value,
            expiry,
            last_accessed: AtomicU32::new(get_uptime_seconds(self.start_time, now)),
        };
        let ghost before = *self;
        shard_insert(&mut self.shards[idx], key, entry);
        proof {
            assert forall|j: int| 0 <= j < self.shards@.len() && j != idx implies self.shards@[j]
                == before.shards@[j] by {}
            assert forall|i: int, k2: Seq<u8>|
                0 <= i < self.shards@.len() && #[trigger] shard_view(
                    self.shards@[i],
                ).contains_key(k2) implies shard_index(k2, self.num_shards as nat) == i by {
                if i != idx {
                    assert(shard_view(before.shards@[i]).contains_key(k2));
                }
            }
            assert(self@ =~= set_model(before@, k, e.0, ttl, now));
        }
    }

    /// The access time that a read records: the uptime second, one read in
    /// ten and only while a memory budget is set; otherwise none.
    fn maybe_update_access_time(&self, now: u64) -> (r: Option<u32>)
        ensures
            self.limits.max_memory == 0 ==> r.is_none(),
            r matches Some(t) ==> t == get_uptime_seconds_spec(self.start_time, now),
    {
        if self.limits.max_memory == 0 {
            return None;
        }
        if random_percent() < 90 {
            return None;
        }
        Some(get_uptime_seconds(self.start_time, now))
    }

    /// The value under `key` if its entry is live at `now`; an expired entry
    /// that is found is removed.
    pub fn get(&mut self, key: &[u8], now: u64) -> (r: Option<Bytes>)
        requires
            old(self).wf(),
        ensures
            final(self).wf(),
            final(self).same_accounting(old(self)),
            opt_view(r) == get_result(old(self)@, key@, now),
            final(self)@ == after_get(old(self)@, key@, now),
    {
        let idx = self.hash(key);
        let ghost before = *self;
        match shard_get(&self.shards[idx], key) {
            Some((v, x)) => {
                if let Some(expiry) = x {
                    if now >= expiry {
                        shard_remove(&mut self.shards[idx], key);
                        proof {
                            assert forall|j: int|
                                0 <= j < self.shards@.len() && j != idx implies self.shards@[j]
                                == before.shards@[j] by {}
                            assert forall|i: int, k2: Seq<u8>|
                                0 <= i < self.shards@.len() && #[trigger] shard_view(
                                    self.shards@[i],
                                ).contains_key(k2) implies shard_index(
                                k2,
                                self.num_shards as nat,
                            ) == i by {
                                if i != idx {
                                    assert(shard_view(before.shards@[i]).contains_key(k2));
                                }
                            }
                            assert(self@ =~= before@.remove(key@));
                        }
                        return None;
                    }
                }
                if let Some(t) = self.maybe_update_access_time(now) {
                    shard_touch(&self.shards[idx], key, t);
                }
                Some(v)
            },
            None => None,
        }
    }

    /// How many of `keys`, counted with repetition, have a live entry at
    /// `now`. Expired entries are left in place.
    pub fn exists_keys(&self, keys: &[Bytes], now: u64) -> (r: usize)
        requires
            self.wf(),
        ensures
            r == live_count(self@, keys_view(keys@), now),
    {
        let ghost ks = keys_view(keys@);
        let mut count: usize = 0;
        let mut i: usize = 0;
        while i < keys.len()
            invariant
                self.wf(),
                i <= keys.len(),
                ks == keys_view(keys@),
                count == live_count(self@, ks.subrange(0, i as int), now),
                count <= i,
            decreases keys.len() - i,
        {
            let key: &[u8] = keys[i].deref();
            let idx = self.hash(key);
            if let Some((_, x)) = shard_get(&self.shards[idx], key) {
                match x {
                    None => {
                        count += 1;
                    },
                    Some(e) => {
                        if e > now {
                            count += 1;
                        }
                    },
                }
            }
            assert(ks.subrange(0, i as int + 1).drop_last() == ks.subrange(0, i as int));
            i += 1;
        }
        assert(ks.subrange(0, keys@.len() as int) == ks);
        count
    }

    /// Removes the entries of all listed keys, visiting the keys shard by
    /// shard, and returns how many distinct listed keys had an entry.
    pub fn delete(&mut self, keys: &[Bytes]) -> (r: usize)
        requires
            old(self).wf(),
        ensures
            final(self).wf(),
            final(self).same_accounting(old(self)),
            final(self)@ == old(self)@.remove_keys(keys_view(keys@).to_set()),
            r == old(self)@.dom().intersect(keys_view(keys@).to_set()).len(),
    {
        let ghost ks = keys_view(keys@);
        let ghost keyset = ks.to_set();
        let ghost start = *self;
        let n = self.num_shards;
        let mut buckets: Vec<Vec<usize>> = Vec::with_capacity(n);
        let mut b: usize = 0;
        while b < n
            invariant
                b <= n,
                buckets@.len() == b,
                forall|s: int| 0 <= s < b ==> #[trigger] buckets@[s]@.len() == 0,
            decreases n - b,
        {
            buckets.push(Vec::new());
            b += 1;
        }
        let mut i: usize = 0;
        while i < keys.len()
            invariant
                self.wf(),
                *self == start,
                n == self.num_shards,
                i <= keys.len(),
                ks == keys_view(keys@),
                buckets@.len() == n,
                forall|s: int, t: int|
                    0 <= s < n && 0 <= t < buckets@[s]@.len() ==> #[trigger] buckets@[s]@[t] < i
                        && shard_index(ks[buckets@[s]@[t] as int], n as nat) == s,
                forall|j: int|
                    0 <= j < i ==> #[trigger] in_bucket(buckets@, shard_index(ks[j], n as nat), j),
            decreases keys.len() - i,
        {
            let s = self.hash(keys[i].deref());
            let ghost prev = buckets@;
            buckets[s].push(i);
            proof {
                assert forall|j: int| 0 <= j < i + 1 implies #[trigger] in_bucket(
                    buckets@,
                    shard_index(ks[j], n as nat),
                    j,
                ) by {
                    let sj = shard_index(ks[j], n as nat);
                    if j < i {
                        assert(in_bucket(prev, sj, j));
                        let t = choose|t: int| 0 <= t < prev[sj]@.len() && prev[sj]@[t] == j;
                        assert(buckets@[sj]@[t] == j);
                    } else {
                        assert(buckets@[s as int]@[prev[s as int]@.len() as int] == j);
                    }
                }
            }
            i += 1;
        }
        proof {
            ks.lemma_cardinality_of_set();
            assert(start@.dom().intersect(Set::empty()) =~= Set::<Seq<u8>>::empty());
            assert(start@.remove_keys(Set::empty()) =~= start@);
        }
        let mut count: usize = 0;
        let ghost mut done: Set<Seq<u8>> = Set::empty();
        let mut s: usize = 0;
        while s < n
            invariant
                self.wf(),
                self.same_accounting(&start),
                n == self.num_shards,
                ks == keys_view(keys@),
                keyset == ks.to_set(),
                keyset.len() <= keys@.len(),
                buckets@.len() == n,
                forall|s2: int, t: int|
                    0 <= s2 < n && 0 <= t < buckets@[s2]@.len() ==> #[trigger] buckets@[s2]@[t]
                        < keys@.len() && shard_index(ks[buckets@[s2]@[t] as int], n as nat) == s2,
                forall|j: int|
                    0 <= j < keys@.len() ==> #[trigger] in_bucket(buckets@, shard_index(ks[j], n as nat), j),
                s <= n,
                done.finite(),
                done.subset_of(keyset),
                self@ == start@.remove_keys(done),
                count == start@.dom().intersect(done).len(),
                forall|s2: int, t: int|
                    0 <= s2 < s && 0 <= t < buckets@[s2]@.len() ==> done.contains(
                        ks[#[trigger] buckets@[s2]@[t] as int],
                    ),
            decreases n - s,
        {
            let mut t: usize = 0;
            while t < buckets[s].len()
                invariant
                    self.wf(),
                    self.same_accounting(&start),
                    n == self.num_shards,
                    ks == keys_view(keys@),
                    keyset == ks.to_set(),
                    keyset.len() <= keys@.len(),
                    buckets@.len() == n,
                    forall|s2: int, t2: int|
                        0 <= s2 < n && 0 <= t2 < buckets@[s2]@.len() ==> #[trigger] buckets@[s2]@[t2]
                            < keys@.len() && shard_index(ks[buckets@[s2]@[t2] as int], n as nat)
                            == s2,
                    s < n,
                    t <= buckets@[s as int]@.len(),
                    done.finite(),
                    done.subset_of(keyset),
                    self@ == start@.remove_keys(done),
                    count == start@.dom().intersect(done).len(),
                    forall|s2: int, t2: int|
                        0 <= s2 < s && 0 <= t2 < buckets@[s2]@.len() ==> done.contains(
                            ks[#[trigger] buckets@[s2]@[t2] as int],
                        ),
                    forall|t2: int|
                        0 <= t2 < t ==> done.contains(
                            ks[#[trigger] buckets@[s as int]@[t2] as int],
                        ),
                decreases buckets@[s as int]@.len() - t,
            {
                let j = buckets[s][t];
                let key: &[u8] = keys[j].deref();
                let ghost k = key@;
                assert(ks[j as int] == k);
                assert(keyset.contains(k));
                let ghost before = *self;
                let removed = shard_remove(&mut self.shards[s], key);
                proof {
                    assert forall|j2: int| 0 <= j2 < self.shards@.len() && j2 != s implies self.shards@[j2]
                        == before.shards@[j2] by {}
                    assert forall|i2: int, k2: Seq<u8>|
                        0 <= i2 < self.shards@.len() && #[trigger] shard_view(
                            self.shards@[i2],
                        ).contains_key(k2) implies shard_index(k2, self.num_shards as nat) == i2 by {
                        if i2 != s {
                            assert(shard_view(before.shards@[i2]).contains_key(k2));
                        }
                    }
                    assert(self@ =~= before@.remove(k));
                    assert(shard_index(k, n as nat) == s);
                    assert(before@.contains_key(k) == removed.is_some());
                    assert(start@.remove_keys(done).remove(k) =~= start@.remove_keys(done.insert(k)));
                    let d2 = done.insert(k);
                    if removed.is_some() {
                        assert(start@.dom().intersect(d2) =~= start@.dom().intersect(done).insert(k));
                        assert(!start@.dom().intersect(done).contains(k));
                        vstd::set_lib::lemma_len_subset(start@.dom().intersect(d2), keyset);
                    } else {
                        assert(start@.dom().intersect(d2) =~= start@.dom().intersect(done));
                    }
                    done = d2;
                }
                if removed.is_some() {
                    count += 1;
                }
                t += 1;
            }
            s += 1;
        }
        proof {
            assert forall|k: Seq<u8>| keyset.contains(k) implies done.contains(k) by {
                let j = ks.index_of(k);
                let sj = shard_index(ks[j], n as nat);
                assert(in_bucket(buckets@, sj, j));
                let t = choose|t: int| 0 <= t < buckets@[sj]@.len() && buckets@[sj]@[t] == j;
                assert(done.contains(ks[buckets@[sj]@[t] as int]));
            }
            assert(done =~= keyset);
        }
        count
    }


    /// Every key with a live entry at `now`, once each, in no particular order.
    pub fn keys(&self, now: u64) -> (r: Vec<Bytes>)
        requires
            self.wf(),
        ensures
            keys_view(r@).no_duplicates(),
            keys_view(r@).to_set() == live_keys(self@, now),
    {
        let n = self.num_shards;
        let mut result: Vec<Bytes> = Vec::new();
        let mut s: usize = 0;
        while s < n
            invariant
                self.wf(),
                n == self.num_shards,
                s <= n,
                keys_view(result@).no_duplicates(),
                forall|i: int|
                    0 <= i < result@.len() ==> {
                        let k = #[trigger] keys_view(result@)[i];
                        self@.contains_key(k) && is_live(self@[k], now) && shard_index(k, n as nat) < s
                    },
                forall|k: Seq<u8>|
                    #[trigger] self@.contains_key(k) && is_live(self@[k], now) && shard_index(k, n as nat)
                        < s ==> keys_view(result@).contains(k),
            decreases n - s,
        {
            let entries = shard_entries(&self.shards[s]);
            let ghost base = result@.len();
            let mut t: usize = 0;
            while t < entries.len()
                invariant
                    self.wf(),
                    n == self.num_shards,
                    s < n,
                    base <= result@.len(),
                    entries@.len() == shard_view(self.shards@[s as int]).len(),
                    forall|i: int|
                        0 <= i < entries@.len() ==> shard_view(self.shards@[s as int]).contains_key(
                            bytes_view(#[trigger] entries@[i].0),
                        ) && shard_view(self.shards@[s as int])[bytes_view(entries@[i].0)].1
                            == entries@[i].1,
                    forall|i: int, j: int|
                        0 <= i < entries@.len() && 0 <= j < entries@.len() && i != j ==> bytes_view(
                            #[trigger] entries@[i].0,
                        ) != bytes_view(#[trigger] entries@[j].0),
                    forall|k: Seq<u8>|
                        #[trigger] shard_view(self.shards@[s as int]).contains_key(k) ==> exists|i: int|
                            0 <= i < entries@.len() && bytes_view(#[trigger] entries@[i].0) == k,
                    t <= entries@.len(),
                    keys_view(result@).no_duplicates(),
                    forall|i: int|
                        0 <= i < result@.len() ==> {
                            let k = #[trigger] keys_view(result@)[i];
                            self@.contains_key(k) && is_live(self@[k], now) && shard_index(k, n as nat)
                                <= s
                        },
                    forall|i: int|
                        base <= i < result@.len() ==> exists|j: int|
                            0 <= j < t && bytes_view(#[trigger] entries@[j].0) == #[trigger] keys_view(
                                result@,
                            )[i],
                    forall|i: int|
                        0 <= i < base ==> shard_index(#[trigger] keys_view(result@)[i], n as nat) < s,
                    forall|k: Seq<u8>|
                        #[trigger] self@.contains_key(k) && is_live(self@[k], now) && shard_index(
                            k,
                            n as nat,
                        ) < s ==> keys_view(result@).contains(k),
                    forall|j: int|
                        0 <= j < t && is_live(
                            self@[bytes_view(#[trigger] entries@[j].0)],
                            now,
                        ) ==> keys_view(result@).contains(bytes_view(entries@[j].0)),
                decreases entries@.len() - t,
            {
                let ghost k = bytes_view(entries@[t as int].0);
                proof {
                    assert(shard_view(self.shards@[s as int]).contains_key(k));
                    assert(shard_index(k, n as nat) == s);
                    assert(self@.contains_key(k));
                    assert(self@[k] == shard_view(self.shards@[s as int])[k]);
                }
                let live = match entries[t].1 {
                    None => true,
                    Some(e) => e > now,
                };
                if live {
                    let ghost prev = result@;
                    result.push(entries[t].0.clone());
                    proof {
                        assert(keys_view(result@) =~= keys_view(prev).push(k));
                        assert forall|i: int| 0 <= i < prev.len() implies keys_view(prev)[i] != k by {
                            if i >= base {
                                let j = choose|j: int|
                                    0 <= j < t && bytes_view(#[trigger] entries@[j].0) == keys_view(
                                        prev,
                                    )[i];
                                assert(j != t);
                            } else {
                                assert(shard_index(keys_view(prev)[i], n as nat) < s);
                            }
                        }
                        assert forall|i: int| base <= i < result@.len() implies exists|j: int|
                            0 <= j < t + 1 && bytes_view(#[trigger] entries@[j].0)
                                == #[trigger] keys_view(result@)[i] by {
                            if i < prev.len() {
                                assert(keys_view(result@)[i] == keys_view(prev)[i]);
                                let j = choose|j: int|
                                    0 <= j < t && bytes_view(#[trigger] entries@[j].0) == keys_view(
                                        prev,
                                    )[i];
                            } else {
                                assert(bytes_view(entries@[t as int].0) == keys_view(result@)[i]);
                            }
                        }
                        assert forall|k2: Seq<u8>|
                            #[trigger] self@.contains_key(k2) && is_live(self@[k2], now) && shard_index(
                                k2,
                                n as nat,
                            ) < s implies keys_view(result@).contains(k2) by {
                            let i = choose|i: int|
                                0 <= i < prev.len() && keys_view(prev)[i] == k2;
                            assert(keys_view(result@)[i] == k2);
                        }
                        assert forall|j: int|
                            0 <= j < t + 1 && is_live(
                                self@[bytes_view(#[trigger] entries@[j].0)],
                                now,
                            ) implies keys_view(result@).contains(bytes_view(entries@[j].0)) by {
                            if j < t {
                                let i = choose|i: int|
                                    0 <= i < prev.len() && keys_view(prev)[i] == bytes_view(
                                        entries@[j].0,
                                    );
                                assert(keys_view(result@)[i] == bytes_view(entries@[j].0));
                            } else {
                                assert(keys_view(result@)[prev.len() as int] == k);
                            }
                        }
                    }
                }
                t += 1;
            }
            proof {
                assert forall|k: Seq<u8>|
                    #[trigger] self@.contains_key(k) && is_live(self@[k], now) && shard_index(
                        k,
                        n as nat,
                    ) < s + 1 implies keys_view(result@).contains(k) by {
                    if shard_index(k, n as nat) == s {
                        assert(shard_view(self.shards@[s as int]).contains_key(k));
                        let j = choose|j: int|
                            0 <= j < entries@.len() && bytes_view(#[trigger] entries@[j].0) == k;
                        assert(is_live(self@[bytes_view(entries@[j].0)], now));
                    }
                }
            }
            s += 1;
        }
        proof {
            assert forall|k: Seq<u8>| live_keys(self@, now).contains(k) implies keys_view(
                result@,
            ).to_set().contains(k) by {
                assert(self@.contains_key(k) && is_live(self@[k], now));
                assert(0 <= shard_index(k, n as nat) < n);
            }
            assert forall|k: Seq<u8>| keys_view(result@).to_set().contains(k) implies live_keys(
                self@,
                now,
            ).contains(k) by {
                let i = choose|i: int| 0 <= i < result@.len() && keys_view(result@)[i] == k;
            }
            assert(keys_view(result@).to_set() =~= live_keys(self@, now));
        }
        result
    }

    /// The number of entries over all shards, expired ones included, capped
    /// at the largest `usize`.
    pub fn len(&self) -> (r: usize)
        requires
            self.wf(),
        ensures
            r == self.counted_len(),
            self@.dom().len() <= usize::MAX ==> r == self@.dom().len(),
    {
        proof {
            crate::laws::lemma_len_counts_keys(*self);
        }
        let mut total: usize = 0;
        let mut i: usize = 0;
        while i < self.num_shards
            invariant
                self.wf(),
                i <= self.num_shards,
                total == (if sizes_sum(self.shards@, i as int) > usize::MAX {
                    usize::MAX as nat
                } else {
                    sizes_sum(self.shards@, i as int)
                }),
            decreases self.num_shards - i,
        {
            total = total.saturating_add(shard_len(&self.shards[i]));
            i += 1;
        }
        total
    }

    /// Removes every entry from every shard.
    pub fn clear(&mut self)
        requires
            old(self).wf(),
        ensures
            final(self).wf(),
            final(self).same_accounting(old(self)),
            final(self)@ == StoreModel::empty(),
            forall|i: int|
                0 <= i < final(self).shards@.len() ==> #[trigger] shard_view(final(self).shards@[i])
                    == StoreModel::empty(),
    {
        let ghost start = *self;
        let mut i: usize = 0;
        while i < self.num_shards
            invariant
                self.same_accounting(&start),
                self.shards@.len() == start.shards@.len(),
                start.wf(),
                i <= self.num_shards,
                forall|j: int| 0 <= j < i ==> #[trigger] shard_view(self.shards@[j]) == StoreModel::empty(),
                forall|j: int| i <= j < self.shards@.len() ==> #[trigger] self.shards@[j] == start.shards@[j],
            decreases self.num_shards - i,
        {
            shard_clear(&mut self.shards[i]);
            i += 1;
        }
        assert(self@ =~= StoreModel::empty());
    }

    /// An independent store with the same entries and accounting.
    pub fn clone(&self) -> (r: Self)
        requires
            self.wf(),
        ensures
            r.wf(),
            r.same_accounting(self),
            r@ == self@,
    {
        let mut shards: Vec<DashMap<Bytes, Entry>> = Vec::with_capacity(self.num_shards);
        let mut i: usize = 0;
        while i < self.num_shards
            invariant
                self.wf(),
                i <= self.num_shards,
                shards@.len() == i,
                forall|j: int| 0 <= j < i ==> #[trigger] shard_view(shards@[j]) == shard_view(self.shards@[j]),
            decreases self.num_shards - i,
        {
            shards.push(shard_clone(&self.shards[i]));
            i += 1;
        }
        let r = ShardedStore {
            shards,
            num_shards: self.num_shards,
            limits: self.limits,
            memory_used: self.memory_used,
            evicted_keys: self.evicted_keys,
            start_time: self.start_time,
        };
        assert(r@ =~= self@);
        r
    }

}

} // verus!
