//! Properties of the keyspace that relate several of its operations.
use bytes::Bytes;
use dashmap::DashMap;
use vstd::prelude::*;

use crate::foreign::shard_view;
use crate::resp::{
    array_reply, bulk_at, bulk_reply, bulks, bulks_from, crlf, decimal, digits_end, digits_value,
    is_digit, number_at, request_at, Lexed, ParseOutcome,
};
use crate::resp::RespParser;
use crate::store::{
    after_get, get_result, live_count, set_model, shard_index, sizes_sum, Entry, ShardedStore,
    StoreModel,
};

verus! {

proof fn lemma_sizes_sum_empty(shards: Seq<DashMap<Bytes, Entry>>, upto: int)
    requires
        upto <= shards.len(),
        forall|i: int| 0 <= i < shards.len() ==> #[trigger] shard_view(shards[i]) == StoreModel::empty(),
    ensures
        sizes_sum(shards, upto) == 0,
    decreases upto,
{
    if upto > 0 {
        lemma_sizes_sum_empty(shards, upto - 1);
        assert(shard_view(shards[upto - 1]).dom() =~= Set::<Seq<u8>>::empty());
    }
}

/// A store whose shards are all empty counts no entries.
pub proof fn lemma_empty_shards_count(s: ShardedStore)
    requires
        s.wf(),
        forall|i: int| 0 <= i < s.shards@.len() ==> #[trigger] shard_view(s.shards@[i]) == StoreModel::empty(),
    ensures
        s.counted_len() == 0,
{
    lemma_sizes_sum_empty(s.shards@, s.num_shards as int);
}


/// A value written without expiry is read back at that second and at every
/// later one, and reading it removes nothing.
pub proof fn lemma_set_then_get(m: StoreModel, k: Seq<u8>, v: Seq<u8>, t: u64, later: u64)
    requires
        later >= t,
    ensures
        get_result(set_model(m, k, v, None, t), k, later) == Some(v),
        after_get(set_model(m, k, v, None, t), k, later) == set_model(m, k, v, None, t),
{
}

/// Writes, reads and deletes that do not name a key leave its entry as it is.
pub proof fn lemma_other_keys_keep(
    m: StoreModel,
    k: Seq<u8>,
    other: Seq<u8>,
    v: Seq<u8>,
    ttl: Option<u64>,
    t: u64,
    deleted: Set<Seq<u8>>,
)
    requires
        other != k,
        !deleted.contains(k),
    ensures
        set_model(m, other, v, ttl, t).contains_key(k) == m.contains_key(k),
        m.contains_key(k) ==> set_model(m, other, v, ttl, t)[k] == m[k],
        after_get(m, other, t).contains_key(k) == m.contains_key(k),
        m.contains_key(k) ==> after_get(m, other, t)[k] == m[k],
        m.remove_keys(deleted).contains_key(k) == m.contains_key(k),
        m.contains_key(k) ==> m.remove_keys(deleted)[k] == m[k],
{
}

/// With a time to live of at least a second, the value is read at the second
/// of the write and is gone `ttl` seconds later.
pub proof fn lemma_ttl_expires(m: StoreModel, k: Seq<u8>, v: Seq<u8>, ttl: u64, t: u64)
    requires
        ttl >= 1,
        t + ttl <= u64::MAX,
    ensures
        get_result(set_model(m, k, v, Some(ttl), t), k, t) == Some(v),
        get_result(set_model(m, k, v, Some(ttl), t), k, (t + ttl) as u64) == None::<Seq<u8>>,
{
}

/// A time to live of 0 makes the entry expired at the second it is written.
pub proof fn lemma_zero_ttl_expired(m: StoreModel, k: Seq<u8>, v: Seq<u8>, t: u64)
    ensures
        get_result(set_model(m, k, v, Some(0), t), k, t) == None::<Seq<u8>>,
{
}

/// After a delete no listed key is present, every other entry stays, and the
/// count is the number of distinct listed keys that were present, at most
/// the number of keys listed.
pub proof fn lemma_delete_removes(m: StoreModel, keys: Seq<Seq<u8>>)
    ensures
        forall|k: Seq<u8>| keys.contains(k) ==> !#[trigger] m.remove_keys(keys.to_set()).contains_key(k),
        forall|k: Seq<u8>|
            !keys.contains(k) && m.contains_key(k) ==> #[trigger] m.remove_keys(
                keys.to_set(),
            ).contains_key(k) && m.remove_keys(keys.to_set())[k] == m[k],
        m.dom().intersect(keys.to_set()).len() <= keys.len(),
{
    keys.lemma_cardinality_of_set();
    vstd::set_lib::lemma_len_intersect(keys.to_set(), m.dom());
    assert(m.dom().intersect(keys.to_set()) =~= keys.to_set().intersect(m.dom()));
}

/// A key can only be held by the shard that its hash selects, so no key is
/// in two shards.
pub proof fn lemma_key_in_one_shard(s: ShardedStore, k: Seq<u8>, i: int, j: int)
    requires
        s.wf(),
        0 <= i < s.num_shards,
        0 <= j < s.num_shards,
        shard_view(s.shards@[i]).contains_key(k),
        shard_view(s.shards@[j]).contains_key(k),
    ensures
        i == j,
        i == shard_index(k, s.num_shards as nat),
{
}

/// Writes of two different keys commute, so writers of disjoint keys leave
/// each key with the value last written to it, whatever the interleaving.
pub proof fn lemma_disjoint_writes_commute(
    m: StoreModel,
    k1: Seq<u8>,
    v1: Seq<u8>,
    ttl1: Option<u64>,
    t1: u64,
    k2: Seq<u8>,
    v2: Seq<u8>,
    ttl2: Option<u64>,
    t2: u64,
)
    requires
        k1 != k2,
    ensures
        set_model(set_model(m, k1, v1, ttl1, t1), k2, v2, ttl2, t2) == set_model(
            set_model(m, k2, v2, ttl2, t2),
            k1,
            v1,
            ttl1,
            t1,
        ),
        set_model(set_model(m, k1, v1, ttl1, t1), k2, v2, ttl2, t2)[k1].0 == v1,
        set_model(set_model(m, k1, v1, ttl1, t1), k2, v2, ttl2, t2)[k2].0 == v2,
{
    assert(set_model(set_model(m, k1, v1, ttl1, t1), k2, v2, ttl2, t2) =~= set_model(
        set_model(m, k2, v2, ttl2, t2),
        k1,
        v1,
        ttl1,
        t1,
    ));
}

proof fn lemma_decimal_digits(n: nat)
    ensures
        decimal(n).len() >= 1,
        forall|i: int| 0 <= i < decimal(n).len() ==> is_digit(#[trigger] decimal(n)[i]),
    decreases n,
{
    if n >= 10 {
        lemma_decimal_digits(n / 10);
        assert forall|i: int| 0 <= i < decimal(n).len() implies is_digit(#[trigger] decimal(n)[i]) by {
            if i < decimal(n / 10).len() {
                assert(decimal(n)[i] == decimal(n / 10)[i]);
            }
        }
    }
}

proof fn lemma_digits_end_at(buf: Seq<u8>, p: int, e: int)
    requires
        0 <= p <= e < buf.len(),
        forall|j: int| p <= j < e ==> is_digit(#[trigger] buf[j]),
        !is_digit(buf[e]),
    ensures
        digits_end(buf, p) == e,
    decreases e - p,
{
    if p < e {
        lemma_digits_end_at(buf, p + 1, e);
    }
}

proof fn lemma_decimal_value(buf: Seq<u8>, p: int, n: nat)
    requires
        0 <= p,
        p + decimal(n).len() <= buf.len(),
        buf.subrange(p, p + decimal(n).len()) == decimal(n),
    ensures
        digits_value(buf, p, p + decimal(n).len()) == n,
    decreases n,
{
    let len = decimal(n).len() as int;
    assert(buf[p + len - 1] == decimal(n)[len - 1]);
    if n < 10 {
        assert(digits_value(buf, p, p) == 0);
    } else {
        let d = decimal(n / 10);
        assert(buf.subrange(p, p + d.len()) =~= d) by {
            assert forall|i: int| 0 <= i < d.len() implies buf.subrange(p, p + d.len())[i] == d[i] by {
                assert(buf.subrange(p, p + len)[i] == decimal(n)[i]);
            }
        }
        lemma_decimal_value(buf, p, n / 10);
    }
}

proof fn lemma_number_round_trip(buf: Seq<u8>, p: int, n: nat)
    requires
        n <= usize::MAX,
        0 <= p,
        p + decimal(n).len() + 2 <= buf.len(),
        buf.subrange(p, p + decimal(n).len() + 2) == decimal(n) + crlf(),
    ensures
        number_at(buf, p) == Lexed::Done(n, p + decimal(n).len() + 2),
{
    let d = decimal(n);
    let e = p + d.len();
    lemma_decimal_digits(n);
    assert forall|i: int| 0 <= i < d.len() + 2 implies buf[p + i] == (d + crlf())[i] by {
        assert(buf.subrange(p, e + 2)[i] == (d + crlf())[i]);
    }
    assert forall|j: int| p <= j < e implies is_digit(#[trigger] buf[j]) by {
        assert(buf[p + (j - p)] == (d + crlf())[j - p]);
    }
    assert(buf[e] == 13u8) by {
        assert(buf[p + d.len()] == (d + crlf())[d.len() as int]);
    }
    assert(buf[e + 1] == 10u8) by {
        assert(buf[p + d.len() + 1] == (d + crlf())[d.len() + 1int]);
    }
    lemma_digits_end_at(buf, p, e);
    assert(buf.subrange(p, e) =~= d) by {
        assert forall|i: int| 0 <= i < d.len() implies buf.subrange(p, e)[i] == d[i] by {
            assert(buf[p + i] == (d + crlf())[i]);
        }
    }
    lemma_decimal_value(buf, p, n);
}

proof fn lemma_bulk_round_trip(buf: Seq<u8>, p: int, x: Seq<u8>)
    requires
        x.len() <= usize::MAX,
        0 <= p,
        p + bulk_reply(x).len() <= buf.len(),
        buf.subrange(p, p + bulk_reply(x).len()) == bulk_reply(x),
    ensures
        bulk_at(buf, p) == Lexed::Done(x, p + bulk_reply(x).len()),
{
    let b = bulk_reply(x);
    let d = decimal(x.len());
    assert forall|i: int| 0 <= i < b.len() implies buf[p + i] == b[i] by {
        assert(buf.subrange(p, p + b.len())[i] == b[i]);
    }
    assert(buf[p] == 36u8) by {
        assert(buf[p + 0] == b[0]);
    }
    let q = p + 1 + d.len() + 2;
    assert(buf.subrange(p + 1, p + 1 + d.len() + 2) =~= d + crlf()) by {
        assert forall|i: int| 0 <= i < d.len() + 2 implies buf.subrange(p + 1, p + 1 + d.len() + 2)[i]
            == (d + crlf())[i] by {
            assert(buf[p + (1 + i)] == b[1 + i]);
        }
    }
    lemma_number_round_trip(buf, p + 1, x.len());
    assert(buf[q + x.len()] == 13u8) by {
        assert(buf[p + (q - p + x.len())] == b[q - p + x.len()]);
    }
    assert(buf[q + x.len() + 1] == 10u8) by {
        assert(buf[p + (q - p + x.len() + 1)] == b[q - p + x.len() + 1]);
    }
    assert(buf.subrange(q, q + x.len()) =~= x) by {
        assert forall|i: int| 0 <= i < x.len() implies buf.subrange(q, q + x.len())[i] == x[i] by {
            assert(buf[p + (q - p + i)] == b[q - p + i]);
        }
    }
}

proof fn lemma_bulks_round_trip(buf: Seq<u8>, p: int, items: Seq<Seq<u8>>, acc: Seq<Seq<u8>>)
    requires
        forall|i: int| 0 <= i < items.len() ==> (#[trigger] items[i]).len() <= usize::MAX,
        0 <= p,
        p + bulks(items).len() <= buf.len(),
        buf.subrange(p, p + bulks(items).len()) == bulks(items),
    ensures
        bulks_from(buf, p, items.len(), acc) == ParseOutcome::Complete(
            acc + items,
            p + bulks(items).len(),
        ),
    decreases items.len(),
{
    if items.len() == 0 {
        assert(acc + items =~= acc);
    } else {
        let first = bulk_reply(items[0]);
        let rest = bulks(items.drop_first());
        let all = bulks(items);
        assert(all == first + rest);
        assert(buf.subrange(p, p + first.len()) =~= first) by {
            assert forall|i: int| 0 <= i < first.len() implies buf.subrange(p, p + first.len())[i]
                == first[i] by {
                assert(buf.subrange(p, p + all.len())[i] == all[i]);
            }
        }
        lemma_bulk_round_trip(buf, p, items[0]);
        let next = p + first.len();
        assert(buf.subrange(next, next + rest.len()) =~= rest) by {
            assert forall|i: int| 0 <= i < rest.len() implies buf.subrange(next, next + rest.len())[i]
                == rest[i] by {
                assert(buf.subrange(p, p + all.len())[first.len() + i] == all[first.len() + i]);
            }
        }
        lemma_bulks_round_trip(buf, next, items.drop_first(), acc.push(items[0]));
        assert(acc.push(items[0]) + items.drop_first() =~= acc + items);
    }
}

/// What the writer emits as an array of bulk strings, a request parser reads
/// back as exactly those arguments, consuming exactly those bytes, whatever
/// comes before or after them.
pub proof fn lemma_array_round_trip(prefix: Seq<u8>, items: Seq<Seq<u8>>, rest: Seq<u8>)
    requires
        items.len() <= usize::MAX,
        forall|i: int| 0 <= i < items.len() ==> (#[trigger] items[i]).len() <= usize::MAX,
    ensures
        request_at(prefix + array_reply(items) + rest, prefix.len() as int) == ParseOutcome::Complete(
            items,
            (prefix.len() + array_reply(items).len()) as int,
        ),
{
    let buf = prefix + array_reply(items) + rest;
    let a = array_reply(items);
    let p = prefix.len() as int;
    let d = decimal(items.len());
    assert forall|i: int| 0 <= i < a.len() implies buf[p + i] == a[i] by {}
    assert(buf[p] == 42u8) by {
        assert(buf[p + 0] == a[0]);
    }
    assert(buf.subrange(p + 1, p + 1 + d.len() + 2) =~= d + crlf()) by {
        assert forall|i: int| 0 <= i < d.len() + 2 implies buf.subrange(p + 1, p + 1 + d.len() + 2)[i]
            == (d + crlf())[i] by {
            assert(buf[p + (1 + i)] == a[1 + i]);
        }
    }
    lemma_number_round_trip(buf, p + 1, items.len());
    let q = p + 1 + d.len() + 2;
    let bs = bulks(items);
    assert(buf.subrange(q, q + bs.len()) =~= bs) by {
        assert forall|i: int| 0 <= i < bs.len() implies buf.subrange(q, q + bs.len())[i] == bs[i] by {
            assert(buf[p + (q - p + i)] == a[q - p + i]);
        }
    }
    lemma_bulks_round_trip(buf, q, items, Seq::empty());
    assert(Seq::<Seq<u8>>::empty() + items =~= items);
}


/// The keys of the store whose shard comes before shard `j`.
pub open spec fn keys_below(s: ShardedStore, j: int) -> Set<Seq<u8>> {
    s@.dom().filter(|k: Seq<u8>| shard_index(k, s.num_shards as nat) < j)
}

proof fn lemma_sizes_sum_keys(s: ShardedStore, j: int)
    requires
        s.wf(),
        0 <= j <= s.num_shards,
    ensures
        keys_below(s, j).finite(),
        sizes_sum(s.shards@, j) == keys_below(s, j).len(),
    decreases j,
{
    if j == 0 {
        assert(keys_below(s, 0) =~= Set::<Seq<u8>>::empty());
    } else {
        lemma_sizes_sum_keys(s, j - 1);
        let a = keys_below(s, j - 1);
        let b = shard_view(s.shards@[j - 1]).dom();
        assert(keys_below(s, j) =~= a + b);
        assert(a.disjoint(b));
        vstd::set_lib::lemma_set_disjoint_lens(a, b);
    }
}

/// The number of entries over all shards is the number of keys in the
/// store's model, so `len` counts every key once (expired ones included,
/// until a read removes them).
pub proof fn lemma_len_counts_keys(s: ShardedStore)
    requires
        s.wf(),
    ensures
        s@.dom().finite(),
        sizes_sum(s.shards@, s.num_shards as int) == s@.dom().len(),
{
    lemma_sizes_sum_keys(s, s.num_shards as int);
    assert(keys_below(s, s.num_shards as int) =~= s@.dom());
}

/// A parser whose pending bytes begin with an array of bulk strings that the
/// writer produced reads back exactly those arguments, ending right after
/// them.
pub proof fn lemma_parser_reads_array(p: RespParser, items: Seq<Seq<u8>>, rest: Seq<u8>)
    requires
        p.wf(),
        p.pending() == array_reply(items) + rest,
        items.len() <= usize::MAX,
        forall|i: int| 0 <= i < items.len() ==> (#[trigger] items[i]).len() <= usize::MAX,
    ensures
        request_at(p.buffer@, p.start as int) == ParseOutcome::Complete(
            items,
            p.start + array_reply(items).len(),
        ),
{
    let prefix = p.buffer@.subrange(0, p.start as int);
    assert(p.buffer@ =~= prefix + p.pending());
    assert(prefix + p.pending() =~= prefix + array_reply(items) + rest);
    lemma_array_round_trip(prefix, items, rest);
}

/// A count of live entries never exceeds the number of keys asked about,
/// and reads nothing but the store.
pub proof fn lemma_live_count_bounded(m: StoreModel, keys: Seq<Seq<u8>>, now: u64)
    ensures
        live_count(m, keys, now) <= keys.len(),
    decreases keys.len(),
{
    if keys.len() > 0 {
        lemma_live_count_bounded(m, keys.drop_last(), now);
    }
}

} // verus!
