//! Contracts for the parts of `bytes`, `dashmap`, `fastrand` and std that the
//! library calls and that vstd does not describe.
use bytes::Bytes;
use dashmap::DashMap;
use std::sync::atomic::Ordering;
use vstd::prelude::*;

use crate::store::{Entry, StoreModel};

verus! {

#[verifier::external_type_specification]
#[verifier::external_body]
pub struct ExBytes(Bytes);

/// The bytes that a `Bytes` handle refers to.
pub uninterp spec fn bytes_view(b: Bytes) -> Seq<u8>;

/// Relies on `Bytes::len`: the number of bytes the handle refers to.
pub assume_specification[ Bytes::len ](b: &Bytes) -> (r: usize)
    ensures
        r == bytes_view(*b).len(),
;

/// Relies on `Bytes::clone`: a new handle to the same bytes.
pub assume_specification[ <Bytes as Clone>::clone ](b: &Bytes) -> (r: Bytes)
    ensures
        bytes_view(r) == bytes_view(*b),
;

/// Relies on `Bytes::copy_from_slice`: a handle to a copy of `data`.
pub assume_specification[ Bytes::copy_from_slice ](data: &[u8]) -> (r: Bytes)
    ensures
        bytes_view(r) == data@,
;

/// Relies on `Bytes` dereferencing to the slice of its bytes.
pub assume_specification[ <Bytes as core::ops::Deref>::deref ](b: &Bytes) -> (r: &[u8])
    ensures
        r@ == bytes_view(*b),
;

#[verifier::external_type_specification]
#[verifier::external_body]
#[verifier::reject_recursive_types(K)]
#[verifier::reject_recursive_types(V)]
#[verifier::reject_recursive_types(S)]
pub struct ExDashMap<K, V, S>(DashMap<K, V, S>);

/// What one shard holds: for each key, the bytes of its value and its expiry.
pub uninterp spec fn shard_view(m: DashMap<Bytes, Entry>) -> Map<Seq<u8>, (Seq<u8>, Option<u64>)>;

/// The model of one stored entry.
pub open spec fn entry_view(e: Entry) -> (Seq<u8>, Option<u64>) {
    (bytes_view(e.value), e.expiry)
}

/// Relies on `DashMap::with_capacity`: a new map is empty.
#[verifier::external_body]
pub(crate) fn shard_new() -> (m: DashMap<Bytes, Entry>)
    ensures
        shard_view(m) == StoreModel::empty(),
{
    DashMap::with_capacity(1000)
}

/// Relies on `DashMap::insert`: the key now maps to the entry, replacing any
/// earlier entry under the same key bytes.
#[verifier::external_body]
pub(crate) fn shard_insert(m: &mut DashMap<Bytes, Entry>, key: Bytes, e: Entry)
    ensures
        shard_view(*final(m)) == shard_view(*old(m)).insert(bytes_view(key), entry_view(e)),
{
    m.insert(key, e);
}

/// Relies on `DashMap::remove`: the entry under the key leaves the map and is
/// handed back, if there was one.
#[verifier::external_body]
pub(crate) fn shard_remove(m: &mut DashMap<Bytes, Entry>, key: &[u8]) -> (r: Option<Entry>)
    ensures
        shard_view(*final(m)) == shard_view(*old(m)).remove(key@),
        r.is_some() == shard_view(*old(m)).contains_key(key@),
        r matches Some(e) ==> entry_view(e) == shard_view(*old(m))[key@],
{
    m.remove(key).map(|(_, e)| e)
}

/// Relies on `DashMap::get`: a new handle to the value of the entry under the
/// key, and its expiry, if there is one.
#[verifier::external_body]
pub(crate) fn shard_get(m: &DashMap<Bytes, Entry>, key: &[u8]) -> (r: Option<(Bytes, Option<u64>)>)
    ensures
        r.is_some() == shard_view(*m).contains_key(key@),
        r matches Some((v, x)) ==> (bytes_view(v), x) == shard_view(*m)[key@],
{
    m.get(key).map(|e| (e.value.clone(), e.expiry))
}

/// Relies on `DashMap::get` and `AtomicU32::store`: records `t` as the access
/// time of the entry under the key, if there is one. The access time is not
/// part of the shard's model, so the model is unchanged.
#[verifier::external_body]
pub(crate) fn shard_touch(m: &DashMap<Bytes, Entry>, key: &[u8], t: u32) {
    if let Some(e) = m.get(key) {
        e.last_accessed.store(t, Ordering::Relaxed);
    }
}

/// Relies on `DashMap::len`: the number of entries.
#[verifier::external_body]
pub(crate) fn shard_len(m: &DashMap<Bytes, Entry>) -> (r: usize)
    ensures
        r == shard_view(*m).len(),
{
    m.len()
}

/// Relies on `DashMap::clear`: no entry is left.
#[verifier::external_body]
pub(crate) fn shard_clear(m: &mut DashMap<Bytes, Entry>)
    ensures
        shard_view(*final(m)) == StoreModel::empty(),
{
    m.clear();
}

/// Relies on `DashMap::clone`, which clones each entry with `Entry::clone`:
/// the copy holds the same keys, values and expiries.
#[verifier::external_body]
pub(crate) fn shard_clone(m: &DashMap<Bytes, Entry>) -> (r: DashMap<Bytes, Entry>)
    ensures
        shard_view(r) == shard_view(*m),
{
    m.clone()
}

/// Relies on `DashMap::iter`: the first entry that iteration yields, as its
/// key, the length of its value and its access time; none only when the map
/// is empty.
#[verifier::external_body]
pub(crate) fn shard_first(m: &DashMap<Bytes, Entry>) -> (r: Option<(Bytes, usize, u32)>)
    ensures
        r.is_none() == (shard_view(*m).dom() == Set::<Seq<u8>>::empty()),
        r matches Some((k, n, _)) ==> shard_view(*m).contains_key(bytes_view(k)) && n
            == shard_view(*m)[bytes_view(k)].0.len(),
{
    m.iter().next().map(|e| (e.key().clone(), e.value().value.len(), e.value().last_accessed.load(Ordering::Relaxed)))
}

/// Relies on `DashMap::iter`: every entry once, as its key and expiry, in an
/// order the map chooses.
#[verifier::external_body]
pub(crate) fn shard_entries(m: &DashMap<Bytes, Entry>) -> (r: Vec<(Bytes, Option<u64>)>)
    ensures
        r@.len() == shard_view(*m).len(),
        forall|i: int|
            0 <= i < r@.len() ==> shard_view(*m).contains_key(bytes_view(#[trigger] r@[i].0))
                && shard_view(*m)[bytes_view(r@[i].0)].1 == r@[i].1,
        forall|i: int, j: int|
            0 <= i < r@.len() && 0 <= j < r@.len() && i != j ==> bytes_view(#[trigger] r@[i].0)
                != bytes_view(#[trigger] r@[j].0),
        forall|k: Seq<u8>|
            #[trigger] shard_view(*m).contains_key(k) ==> exists|i: int|
                0 <= i < r@.len() && bytes_view(#[trigger] r@[i].0) == k,
{
    m.iter().map(|e| (e.key().clone(), e.value().expiry)).collect()
}

/// Relies on `fastrand::usize`: a number below `n`.
#[verifier::external_body]
pub(crate) fn random_below(n: usize) -> (r: usize)
    requires
        n > 0,
    ensures
        r < n,
{
    fastrand::usize(..n)
}

/// Relies on `fastrand::u8`: a number below 100.
#[verifier::external_body]
pub(crate) fn random_percent() -> (r: u8)
    ensures
        r < 100,
{
    fastrand::u8(..100)
}

/// Relies on `SystemTime::now`: the wall clock in whole seconds since the
/// Unix epoch, or 0 if the clock reads earlier than the epoch.
#[verifier::external_body]
pub fn get_timestamp() -> u64 {
    match std::time::SystemTime::now().duration_since(std::time::UNIX_EPOCH) {
        Ok(d) => d.as_secs(),
        Err(_) => 0,
    }
}

/// What `str::to_lowercase` makes of a string.
pub uninterp spec fn lower_of(s: Seq<char>) -> Seq<char>;

/// Relies on `str::to_lowercase`: the result depends on the characters alone.
#[verifier::external_body]
pub(crate) fn lowercase(s: &str) -> (r: String)
    ensures
        r@ == lower_of(s@),
{
    s.to_lowercase()
}

/// Relies on `String::from_utf8`: ASCII bytes are valid UTF-8, one character each.
#[verifier::external_body]
pub(crate) fn ascii_string(v: Vec<u8>) -> (r: String)
    requires
        forall|i: int| 0 <= i < v@.len() ==> v@[i] < 128,
    ensures
        r@ == v@.map_values(|b: u8| b as char),
{
    String::from_utf8(v).unwrap_or_default()
}

} // verus!
