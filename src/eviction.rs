//! Memory accounting and eviction: a write is admitted when it fits the
//! budget, else entries are evicted by the configured policy until it does.
use std::ops::Deref;
use bytes::Bytes;
use vstd::prelude::*;

use crate::config::EvictionPolicy;
use crate::foreign::{random_below, shard_first, shard_remove, shard_view};
use crate::store::{shard_index, ShardedStore, StoreModel, ENTRY_OVERHEAD};

verus! {

/// Rounds of eviction that one write may trigger.
pub const MAX_EVICTION_ATTEMPTS: usize = 100;

/// Bytes charged for an entry with keys and values of these lengths.
pub open spec fn entry_cost(key_len: nat, value_len: nat) -> nat {
    key_len + value_len + (ENTRY_OVERHEAD as nat)
}

/// `entry_cost` as a `u64`, saturated at its largest value.
pub open spec fn cost_u64(key_len: nat, value_len: nat) -> u64 {
    if entry_cost(key_len, value_len) > u64::MAX {
        u64::MAX
    } else {
        entry_cost(key_len, value_len) as u64
    }
}

/// `a - b`, or 0 when `b` is at least `a`.
pub open spec fn sat_sub(a: u64, b: int) -> u64 {
    if b >= a {
        0
    } else {
        (a - b) as u64
    }
}

/// `a + 1`, saturated at the largest `u64`.
pub open spec fn sat_inc(a: u64) -> u64 {
    if a == u64::MAX {
        a
    } else {
        (a + 1) as u64
    }
}

/// The entries and the counters are as before.
pub open spec fn unchanged(before: ShardedStore, after: ShardedStore) -> bool {
    &&& after@ == before@
    &&& after.memory_used == before.memory_used
    &&& after.evicted_keys == before.evicted_keys
}

/// One entry, under `k`, was evicted and `freed` bytes were released.
pub open spec fn evicted_one(before: ShardedStore, after: ShardedStore, k: Seq<u8>, freed: u64) -> bool {
    &&& before@.contains_key(k)
    &&& after@ == before@.remove(k)
    &&& freed == cost_u64(k.len(), before@[k].0.len())
    &&& after.memory_used == sat_sub(before.memory_used, freed as int)
    &&& after.evicted_keys == sat_inc(before.evicted_keys)
}

/// The configuration of the store is as before.
pub open spec fn same_setup(before: ShardedStore, after: ShardedStore) -> bool {
    &&& after.wf()
    &&& after.num_shards == before.num_shards
    &&& after.limits == before.limits
    &&& after.start_time == before.start_time
}

/// Whether `used + needed` bytes fit a budget of `max` bytes (0: unbounded).
pub open spec fn fits(max: u64, used: u64, needed: nat) -> bool {
    max == 0 || used + needed <= max
}

/// Bytes charged for an entry: the key and value lengths plus a fixed
/// overhead.
pub fn entry_size(key_len: usize, value_len: usize) -> (r: usize)
    requires
        key_len + value_len + ENTRY_OVERHEAD <= usize::MAX,
    ensures
        r == entry_cost(key_len as nat, value_len as nat),
{
    key_len + value_len + ENTRY_OVERHEAD
}

/// `entry_cost` computed without overflow.
fn charged(key_len: usize, value_len: usize) -> (r: u64)
    ensures
        r == cost_u64(key_len as nat, value_len as nat),
{
    (key_len as u64).saturating_add(value_len as u64).saturating_add(ENTRY_OVERHEAD as u64)
}

/// The position of the first of the smallest access times, if any.
pub fn oldest_sample(times: &[u32]) -> (r: Option<usize>)
    ensures
        r.is_none() == (times@.len() == 0),
        r matches Some(i) ==> i < times@.len() && (forall|j: int|
            0 <= j < times@.len() ==> times@[i as int] <= #[trigger] times@[j]) && (forall|j: int|
            0 <= j < i ==> times@[i as int] < #[trigger] times@[j]),
{
    if times.len() == 0 {
        return None;
    }
    let mut best: usize = 0;
    let mut j: usize = 1;
    while j < times.len()
        invariant
            1 <= j <= times@.len(),
            best < j,
            forall|k: int| 0 <= k < j ==> times@[best as int] <= #[trigger] times@[k],
            forall|k: int| 0 <= k < best ==> times@[best as int] < #[trigger] times@[k],
        decreases times@.len() - j,
    {
        if times[j] < times[best] {
            best = j;
        }
        j += 1;
    }
    Some(best)
}

/// Removes the entry under `key` from shard `idx` and accounts for it;
/// returns the bytes released, 0 when there was no such entry.
fn remove_for_eviction(store: &mut ShardedStore, idx: usize, key: &[u8]) -> (r: u64)
    requires
        old(store).wf(),
        idx < old(store).num_shards,
        shard_index(key@, old(store).num_shards as nat) == idx,
    ensures
        same_setup(*old(store), *final(store)),
        old(store)@.contains_key(key@) ==> r > 0 && evicted_one(*old(store), *final(store), key@, r),
        !old(store)@.contains_key(key@) ==> r == 0 && unchanged(*old(store), *final(store)),
{
    let ghost before = *store;
    match shard_remove(&mut store.shards[idx], key) {
        Some(e) => {
            let size = charged(key.len(), e.value.len());
            store.memory_used = store.memory_used.saturating_sub(size);
            store.evicted_keys = store.evicted_keys.saturating_add(1);
            proof {
                assert forall|j: int| 0 <= j < store.shards@.len() && j != idx implies store.shards@[j]
                    == before.shards@[j] by {}
                assert forall|i: int, k2: Seq<u8>|
                    0 <= i < store.shards@.len() && #[trigger] shard_view(
                        store.shards@[i],
                    ).contains_key(k2) implies shard_index(k2, store.num_shards as nat) == i by {
                    if i != idx {
                        assert(shard_view(before.shards@[i]).contains_key(k2));
                    }
                }
                assert(store@ =~= before@.remove(key@));
            }
            size
        },
        None => {
            proof {
                assert(store@ =~= before@);
            }
            0
        },
    }
}

/// Some shard of the store holds no entry.
pub open spec fn has_empty_shard(s: ShardedStore) -> bool {
    exists|i: int|
        0 <= i < s.num_shards && #[trigger] shard_view(s.shards@[i]).dom() == Set::<Seq<u8>>::empty()
}

/// Eviction cannot find a candidate every time: a shard is empty, or LRU
/// sampling takes no samples.
pub open spec fn may_miss(s: ShardedStore) -> bool {
    has_empty_shard(s) || (s.limits.policy == EvictionPolicy::AllKeysLru && s.limits.sample_size
        == 0)
}

/// The bytes charged for the entries of `m` under the keys `ks`.
pub open spec fn freed_by(m: StoreModel, ks: Seq<Seq<u8>>) -> nat
    decreases ks.len(),
{
    if ks.len() == 0 {
        0
    } else {
        freed_by(m, ks.drop_last()) + cost_u64(ks.last().len(), m[ks.last()].0.len()) as nat
    }
}

/// `a + n`, saturated at the largest `u64`.
pub open spec fn sat_add_n(a: u64, n: nat) -> u64 {
    if a + n > u64::MAX {
        u64::MAX
    } else {
        (a + n) as u64
    }
}

/// The entries under the distinct keys `ks` were evicted, at most one per
/// round: they are gone, the bytes charged for them were released and they
/// were counted; the write is admitted exactly when those bytes reach
/// `needed`, and is refused only after the last round or when eviction could
/// not find a candidate.
pub open spec fn evicted_all(
    before: ShardedStore,
    after: ShardedStore,
    ks: Seq<Seq<u8>>,
    r: bool,
    needed: nat,
) -> bool {
    &&& ks.len() <= MAX_EVICTION_ATTEMPTS
    &&& ks.no_duplicates()
    &&& forall|i: int| 0 <= i < ks.len() ==> before@.contains_key(#[trigger] ks[i])
    &&& after@ == before@.remove_keys(ks.to_set())
    &&& after.memory_used == sat_sub(before.memory_used, freed_by(before@, ks) as int)
    &&& after.evicted_keys == sat_add_n(before.evicted_keys, ks.len())
    &&& r == (freed_by(before@, ks) >= needed)
    &&& !r ==> ks.len() == MAX_EVICTION_ATTEMPTS || may_miss(after)
}

/// Every shard can offer a candidate, and evicting any one entry releases
/// at least `needed` bytes.
pub open spec fn every_entry_covers(s: ShardedStore, needed: nat) -> bool {
    &&& !may_miss(s)
    &&& forall|k: Seq<u8>| #[trigger] s@.contains_key(k) ==> cost_u64(k.len(), s@[k].0.len()) >= needed
}

/// Evicts the first entry of one shard picked at random; returns the bytes
/// released, 0 when that shard was empty.
pub fn evict_random(store: &mut ShardedStore) -> (r: u64)
    requires
        old(store).wf(),
    ensures
        same_setup(*old(store), *final(store)),
        r == 0 ==> *final(store) == *old(store) && has_empty_shard(*old(store)),
        r > 0 ==> exists|k: Seq<u8>| evicted_one(*old(store), *final(store), k, r),
{
    let idx = random_below(store.num_shards);
    match shard_first(&store.shards[idx]) {
        Some((k, _, _)) => {
            let key: &[u8] = k.deref();
            assert(shard_view(store.shards@[idx as int]).contains_key(key@));
            let r = remove_for_eviction(store, idx, key);
            r
        },
        None => {
            assert(shard_view(store.shards@[idx as int]).dom() == Set::<Seq<u8>>::empty());
            0
        },
    }
}

/// Samples `sample_size` shards picked at random, takes the first entry of
/// each, and evicts the sampled entry with the oldest access time; returns
/// the bytes released, 0 when there was no sample or every sampled shard was
/// empty.
pub fn evict_lru(store: &mut ShardedStore) -> (r: u64)
    requires
        old(store).wf(),
    ensures
        same_setup(*old(store), *final(store)),
        r == 0 ==> *final(store) == *old(store) && (old(store).limits.sample_size == 0
            || has_empty_shard(*old(store))),
        r > 0 ==> exists|k: Seq<u8>| evicted_one(*old(store), *final(store), k, r),
{
    let ghost start = *store;
    let n = store.num_shards;
    let mut keys: Vec<Bytes> = Vec::new();
    let mut owners: Vec<usize> = Vec::new();
    let mut times: Vec<u32> = Vec::new();
    let mut round: usize = 0;
    while round < store.limits.sample_size
        invariant
            store.wf(),
            *store == start,
            n == store.num_shards,
            keys@.len() == owners@.len(),
            keys@.len() == times@.len(),
            forall|i: int|
                0 <= i < keys@.len() ==> #[trigger] owners@[i] < n && shard_view(
                    store.shards@[owners@[i] as int],
                ).contains_key(crate::foreign::bytes_view(keys@[i])),
            round > 0 && keys@.len() == 0 ==> has_empty_shard(*store),
        decreases store.limits.sample_size - round,
    {
        let idx = random_below(n);
        if let Some((k, _, t)) = shard_first(&store.shards[idx]) {
            keys.push(k);
            owners.push(idx);
            times.push(t);
        } else {
            assert(shard_view(store.shards@[idx as int]).dom() == Set::<Seq<u8>>::empty());
        }
        round += 1;
    }
    match oldest_sample(times.as_slice()) {
        Some(i) => {
            let idx = owners[i];
            let key: &[u8] = keys[i].deref();
            assert(shard_view(store.shards@[idx as int]).contains_key(key@));
            let r = remove_for_eviction(store, idx, key);
            r
        },
        None => 0,
    }
}

/// Makes room for a write of `needed_size` bytes. Without a budget, or when
/// the write fits, nothing happens and the write is admitted; under
/// `NoEviction` a write that does not fit is refused with nothing changed;
/// otherwise entries are evicted one per round, for at most
/// `MAX_EVICTION_ATTEMPTS` rounds, until the bytes released reach
/// `needed_size`, and the write is admitted exactly when they do.
pub fn evict_if_needed(store: &mut ShardedStore, needed_size: usize) -> (r: bool)
    requires
        old(store).wf(),
    ensures
        same_setup(*old(store), *final(store)),
        final(store)@.submap_of(old(store)@),
        fits(old(store).limits.max_memory, old(store).memory_used, needed_size as nat) ==> r
            && unchanged(*old(store), *final(store)),
        !fits(old(store).limits.max_memory, old(store).memory_used, needed_size as nat)
            && old(store).limits.policy == EvictionPolicy::NoEviction ==> !r && unchanged(
            *old(store),
            *final(store),
        ),
        !fits(old(store).limits.max_memory, old(store).memory_used, needed_size as nat)
            && old(store).limits.policy != EvictionPolicy::NoEviction ==> exists|ks: Seq<Seq<u8>>|
            evicted_all(*old(store), *final(store), ks, r, needed_size as nat),
        !fits(old(store).limits.max_memory, old(store).memory_used, needed_size as nat)
            && old(store).limits.policy != EvictionPolicy::NoEviction && every_entry_covers(
            *old(store),
            needed_size as nat,
        ) ==> r,
{
    let ghost start = *store;
    let max_memory = store.limits.max_memory;
    if max_memory == 0 {
        return true;
    }
    let current = store.memory_used;
    if current <= max_memory && (needed_size as u64) <= max_memory - current {
        return true;
    }
    let policy = store.limits.policy;
    if policy == EvictionPolicy::NoEviction {
        return false;
    }
    let ghost covers = every_entry_covers(start, needed_size as nat);
    let ghost mut ks: Seq<Seq<u8>> = Seq::empty();
    proof {
        assert(start@.remove_keys(ks.to_set()) =~= start@);
    }
    let mut freed: u64 = 0;
    let mut attempts: usize = 0;
    let mut missed = false;
    while !missed && freed < needed_size as u64 && attempts < MAX_EVICTION_ATTEMPTS
        invariant
            same_setup(start, *store),
            store.limits.policy == policy,
            policy != EvictionPolicy::NoEviction,
            ks.len() == attempts || (missed && ks.len() + 1 == attempts),
            attempts <= MAX_EVICTION_ATTEMPTS,
            ks.no_duplicates(),
            forall|i: int| 0 <= i < ks.len() ==> start@.contains_key(#[trigger] ks[i]),
            store@ == start@.remove_keys(ks.to_set()),
            store.memory_used == sat_sub(start.memory_used, freed_by(start@, ks) as int),
            store.evicted_keys == sat_add_n(start.evicted_keys, ks.len()),
            freed == (if freed_by(start@, ks) > u64::MAX {
                u64::MAX as nat
            } else {
                freed_by(start@, ks)
            }),
            missed ==> may_miss(*store),
            ks.len() == 0 ==> *store == start,
            covers == every_entry_covers(start, needed_size as nat),
            covers && ks.len() > 0 ==> freed_by(start@, ks) >= needed_size,
        decreases MAX_EVICTION_ATTEMPTS - attempts,
    {
        attempts += 1;
        let ghost before = *store;
        let evicted = match policy {
            EvictionPolicy::AllKeysRandom => evict_random(store),
            _ => evict_lru(store),
        };
        if evicted == 0 {
            missed = true;
        } else {
            proof {
                let k = choose|k: Seq<u8>| evicted_one(before, *store, k, evicted);
                assert(!ks.contains(k));
                assert(before@[k] == start@[k]);
                let ks2 = ks.push(k);
                assert(ks2.drop_last() == ks);
                ks.lemma_push_to_set_commute(k);
                assert(freed_by(start@, ks2) == freed_by(start@, ks) + cost_u64(
                    k.len(),
                    start@[k].0.len(),
                ) as nat);
                assert(store@ =~= start@.remove_keys(ks2.to_set()));
                assert forall|i: int| 0 <= i < ks2.len() implies start@.contains_key(
                    #[trigger] ks2[i],
                ) by {
                    if i < ks.len() {
                        assert(ks2[i] == ks[i]);
                    }
                }
                assert(ks2.no_duplicates()) by {
                    assert forall|i: int, j: int|
                        0 <= i < ks2.len() && 0 <= j < ks2.len() && i != j implies ks2[i]
                        != ks2[j] by {
                        if i < ks.len() && j < ks.len() {
                            assert(ks2[i] == ks[i] && ks2[j] == ks[j]);
                        } else if i < ks.len() {
                            assert(ks2[i] == ks[i]);
                        } else if j < ks.len() {
                            assert(ks2[j] == ks[j]);
                        }
                    }
                }
                if covers {
                    assert(start@.contains_key(k));
                    assert(cost_u64(k.len(), start@[k].0.len()) >= needed_size);
                }
                ks = ks2;
            }
            freed = freed.saturating_add(evicted);
        }
    }
    let r = freed >= needed_size as u64;
    proof {
        if !r {
            if missed {
                assert(ks.len() > 0 || !covers);
            }
        }
        assert(evicted_all(start, *store, ks, r, needed_size as nat));
        assert forall|k2: Seq<u8>| #[trigger] store@.dom().contains(k2) implies start@.dom().contains(
            k2,
        ) && store@[k2] == start@[k2] by {}
    }
    r
}

} // verus!
