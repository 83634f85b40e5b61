//! Caching of assembled byte ranges, with least-recently-used eviction
//! bounded by an entry count and a total byte budget.
use lru::LruCache;
use std::ops::Range;
use std::time::Instant;
use vstd::prelude::*;

use crate::clock::{elapsed_since, now};
use crate::lru_cache::{entries_distinct, entries_have_key, lru_capacity, lru_cap, lru_clear, lru_contains, lru_entries, lru_get, lru_keys_mru_first, lru_len, lru_new, lru_pop, lru_pop_lru, lru_put, lru_wf};
use crate::time::Duration;
use crate::torrent::InfoHash;

verus! {

/// Errors of the range cache.
#[derive(Debug)]
pub enum StorageCacheError {
    /// The cache cannot store more data.
    CacheFull,
    /// A key was rejected.
    InvalidKey { reason: String },
    /// An entry is larger than the per-entry limit.
    EntryTooLarge { size: usize, limit: usize },
}

/// Identifies a cached byte range `start..end` of a torrent.
#[derive(Debug, Clone, Copy, PartialEq, Eq, Hash)]
pub struct CacheKey {
    pub info_hash: InfoHash,
    pub start: u64,
    pub end: u64,
}

/// The cache's internal key for a `CacheKey`.
pub open spec fn key_tuple(k: CacheKey) -> ([u8; 20], u64, u64) {
    (k.info_hash.0, k.start, k.end)
}

impl CacheKey {
    /// The key of `range` of the torrent `info_hash`.
    pub fn new(info_hash: InfoHash, range: Range<u64>) -> (k: CacheKey)
        ensures
            k.info_hash == info_hash,
            k.start == range.start,
            k.end == range.end,
    {
        CacheKey { info_hash, start: range.start, end: range.end }
    }

    /// The length of the range.
    pub fn range_size(&self) -> (n: u64)
        requires
            self.start <= self.end,
        ensures
            n == self.end - self.start,
    {
        self.end - self.start
    }

    /// The range as `start..end`.
    pub fn to_range(&self) -> (r: Range<u64>)
        ensures
            r.start == self.start,
            r.end == self.end,
    {
        self.start..self.end
    }

    fn tuple(&self) -> (t: ([u8; 20], u64, u64))
        ensures
            t == key_tuple(*self),
    {
        (self.info_hash.0, self.start, self.end)
    }
}

/// A cached value with access bookkeeping.
#[derive(Debug, Clone)]
pub struct CacheEntry {
    pub data: Vec<u8>,
    pub created_at: Instant,
    pub access_count: u64,
    pub last_accessed: Instant,
}

impl CacheEntry {
    /// A fresh entry for `data`, counted as accessed once.
    pub fn new(data: Vec<u8>) -> (e: CacheEntry)
        ensures
            e.data@ == data@,
            e.access_count == 1,
            e.last_accessed == e.created_at,
    {
        let t = now();
        CacheEntry { data, created_at: t, access_count: 1, last_accessed: t }
    }

    /// Counts one more access and stamps the access time.
    pub fn mark_accessed(&mut self)
        requires
            old(self).access_count < u64::MAX,
        ensures
            final(self).access_count == old(self).access_count + 1,
            final(self).data == old(self).data,
            final(self).created_at == old(self).created_at,
    {
        self.access_count = self.access_count + 1;
        self.last_accessed = now();
    }

    /// Time since the entry was created.
    pub fn age(&self) -> (d: Duration)
        ensures
            d.wf(),
    {
        elapsed_since(&self.created_at)
    }

    /// Time since the entry was last accessed.
    pub fn idle_time(&self) -> (d: Duration)
        ensures
            d.wf(),
    {
        elapsed_since(&self.last_accessed)
    }
}

/// Limits of the range cache.
#[derive(Debug, Clone, Copy)]
pub struct StorageCacheConfig {
    /// Maximum number of entries.
    pub max_entries: usize,
    /// Maximum size of one entry in bytes.
    pub max_entry_size: usize,
    /// Maximum total bytes.
    pub max_total_size: usize,
}

impl Default for StorageCacheConfig {
    fn default() -> (c: StorageCacheConfig)
        ensures
            c.max_entries == 64,
            c.max_entry_size == 1024 * 1024,
            c.max_total_size == 64 * 1024 * 1024,
    {
        StorageCacheConfig { max_entries: 64, max_entry_size: 1024 * 1024, max_total_size: 64 * 1024 * 1024 }
    }
}

/// The sum of the value lengths of cache entries.
pub open spec fn entry_bytes(e: Seq<(([u8; 20], u64, u64), Seq<u8>)>) -> int
    decreases e.len(),
{
    if e.len() == 0 {
        0
    } else {
        e[0].1.len() + entry_bytes(e.drop_first())
    }
}

/// How many least recently used entries `put` evicts to make room for
/// `size` bytes, with `current` the byte count it starts from.
pub open spec fn size_evictions(e: Seq<(([u8; 20], u64, u64), Seq<u8>)>, current: int, size: int, max_total: int) -> nat
    decreases e.len(),
{
    if e.len() == 0 || current + size <= max_total {
        0
    } else {
        1 + size_evictions(e.drop_first(), current - e[0].1.len(), size, max_total)
    }
}

/// The position of a key among entries that hold it.
pub open spec fn key_position(e: Seq<(([u8; 20], u64, u64), Seq<u8>)>, k: ([u8; 20], u64, u64)) -> int {
    choose|i: int| 0 <= i < e.len() && (#[trigger] e[i]).0 == k
}

/// The entries after the cache stores `v` under `k` (the `lru` crate's `put`).
pub open spec fn lru_insert(
    e: Seq<(([u8; 20], u64, u64), Seq<u8>)>,
    cap: nat,
    k: ([u8; 20], u64, u64),
    v: Seq<u8>,
) -> Seq<(([u8; 20], u64, u64), Seq<u8>)> {
    if entries_have_key(e, k) {
        e.remove(key_position(e, k)).push((k, v))
    } else if e.len() == cap {
        e.drop_first().push((k, v))
    } else {
        e.push((k, v))
    }
}

/// The byte count after storing `v` under `k` (see `lru_insert`): the
/// replaced value's bytes are released and the new value's bytes added.
/// The entry that a full cache drops for a new key is dropped by the `lru`
/// cache itself and its bytes stay counted.
pub open spec fn count_after_insert(e: Seq<(([u8; 20], u64, u64), Seq<u8>)>, current: int, k: ([u8; 20], u64, u64), size: int) -> int {
    if entries_have_key(e, k) {
        current - e[key_position(e, k)].1.len() + size
    } else {
        current + size
    }
}

/// The entries after a lookup of `k`: a present key becomes most recently used.
pub open spec fn lru_touch(e: Seq<(([u8; 20], u64, u64), Seq<u8>)>, k: ([u8; 20], u64, u64)) -> Seq<(([u8; 20], u64, u64), Seq<u8>)> {
    if entries_have_key(e, k) {
        e.remove(key_position(e, k)).push(e[key_position(e, k)])
    } else {
        e
    }
}

/// The value a lookup of `k` returns.
pub open spec fn lru_lookup(e: Seq<(([u8; 20], u64, u64), Seq<u8>)>, k: ([u8; 20], u64, u64)) -> Option<Seq<u8>> {
    if entries_have_key(e, k) {
        Some(e[key_position(e, k)].1)
    } else {
        None
    }
}

proof fn lemma_entry_bytes_concat(a: Seq<(([u8; 20], u64, u64), Seq<u8>)>, b: Seq<(([u8; 20], u64, u64), Seq<u8>)>)
    ensures
        entry_bytes(a + b) == entry_bytes(a) + entry_bytes(b),
    decreases a.len(),
{
    if a.len() == 0 {
        assert(a + b =~= b);
    } else {
        assert((a + b).drop_first() =~= a.drop_first() + b);
        lemma_entry_bytes_concat(a.drop_first(), b);
    }
}

proof fn lemma_entry_bytes_nonneg(a: Seq<(([u8; 20], u64, u64), Seq<u8>)>)
    ensures
        entry_bytes(a) >= 0,
    decreases a.len(),
{
    if a.len() > 0 {
        lemma_entry_bytes_nonneg(a.drop_first());
    }
}

proof fn lemma_entry_bytes_single(x: (([u8; 20], u64, u64), Seq<u8>))
    ensures
        entry_bytes(seq![x]) == x.1.len(),
{
    assert(seq![x].drop_first() =~= Seq::<(([u8; 20], u64, u64), Seq<u8>)>::empty());
    assert(entry_bytes(Seq::<(([u8; 20], u64, u64), Seq<u8>)>::empty()) == 0);
    assert(seq![x][0] == x);
}

proof fn lemma_entry_bytes_remove(a: Seq<(([u8; 20], u64, u64), Seq<u8>)>, i: int)
    requires
        0 <= i < a.len(),
    ensures
        entry_bytes(a.remove(i)) == entry_bytes(a) - a[i].1.len(),
        a[i].1.len() <= entry_bytes(a),
{
    assert(a =~= a.take(i) + (seq![a[i]] + a.skip(i + 1)));
    assert(a.remove(i) =~= a.take(i) + a.skip(i + 1));
    lemma_entry_bytes_concat(a.take(i), seq![a[i]] + a.skip(i + 1));
    lemma_entry_bytes_concat(seq![a[i]], a.skip(i + 1));
    lemma_entry_bytes_concat(a.take(i), a.skip(i + 1));
    lemma_entry_bytes_single(a[i]);
    lemma_entry_bytes_nonneg(a.take(i));
    lemma_entry_bytes_nonneg(a.skip(i + 1));
}

proof fn lemma_entry_bytes_push(a: Seq<(([u8; 20], u64, u64), Seq<u8>)>, x: (([u8; 20], u64, u64), Seq<u8>))
    ensures
        entry_bytes(a.push(x)) == entry_bytes(a) + x.1.len(),
{
    assert(a.push(x) =~= a + seq![x]);
    lemma_entry_bytes_concat(a, seq![x]);
    lemma_entry_bytes_single(x);
}

pub(crate) proof fn lemma_key_position(e: Seq<(([u8; 20], u64, u64), Seq<u8>)>, k: ([u8; 20], u64, u64), i: int)
    requires
        entries_distinct(e),
        0 <= i < e.len(),
        e[i].0 == k,
    ensures
        entries_have_key(e, k),
        key_position(e, k) == i,
{
    assert(entries_have_key(e, k));
    let j = key_position(e, k);
    if j != i {
        if j < i {
            assert(e[j].0 != e[i].0);
        } else {
            assert(e[i].0 != e[j].0);
        }
    }
}

proof fn lemma_size_evictions_step(
    e: Seq<(([u8; 20], u64, u64), Seq<u8>)>,
    k: int,
    current: int,
    size: int,
    max_total: int,
)
    requires
        0 <= k <= e.len(),
        forall|j: int| 0 <= j < k ==> current - entry_bytes(#[trigger] e.take(j)) + size > max_total,
    ensures
        size_evictions(e, current, size, max_total) == k + size_evictions(e.skip(k), current - entry_bytes(e.take(k)), size, max_total),
    decreases k,
{
    if k == 0 {
        assert(e.skip(0) =~= e);
        assert(e.take(0) =~= Seq::<(([u8; 20], u64, u64), Seq<u8>)>::empty());
    } else {
        assert(e.take(0) =~= Seq::<(([u8; 20], u64, u64), Seq<u8>)>::empty());
        assert(current - entry_bytes(e.take(0)) + size > max_total);
        let c2 = current - e[0].1.len();
        assert forall|j: int| 0 <= j < k - 1 implies c2 - entry_bytes(#[trigger] e.drop_first().take(j)) + size > max_total by {
            assert(e.take(j + 1) =~= seq![e[0]] + e.drop_first().take(j));
            lemma_entry_bytes_concat(seq![e[0]], e.drop_first().take(j));
            lemma_entry_bytes_single(e[0]);
            assert(current - entry_bytes(e.take(j + 1)) + size > max_total);
        }
        lemma_size_evictions_step(e.drop_first(), k - 1, c2, size, max_total);
        assert(e.drop_first().skip(k - 1) =~= e.skip(k));
        assert(e.take(k) =~= seq![e[0]] + e.drop_first().take(k - 1));
        lemma_entry_bytes_concat(seq![e[0]], e.drop_first().take(k - 1));
        lemma_entry_bytes_single(e[0]);
    }
}

/// The entries that do not belong to the torrent `h`, in their order.
pub open spec fn drop_torrent(e: Seq<(([u8; 20], u64, u64), Seq<u8>)>, h: Seq<u8>) -> Seq<(([u8; 20], u64, u64), Seq<u8>)>
    decreases e.len(),
{
    if e.len() == 0 {
        e
    } else if e[0].0.0@ == h {
        drop_torrent(e.drop_first(), h)
    } else {
        seq![e[0]] + drop_torrent(e.drop_first(), h)
    }
}

/// The entries whose keys are not in `ks`, in their order.
pub open spec fn without_keys(e: Seq<(([u8; 20], u64, u64), Seq<u8>)>, ks: Set<([u8; 20], u64, u64)>) -> Seq<(([u8; 20], u64, u64), Seq<u8>)>
    decreases e.len(),
{
    if e.len() == 0 {
        e
    } else if ks.contains(e[0].0) {
        without_keys(e.drop_first(), ks)
    } else {
        seq![e[0]] + without_keys(e.drop_first(), ks)
    }
}

/// The keys of the entries from the most recently used to the least.
pub open spec fn keys_mru_first(e: Seq<(([u8; 20], u64, u64), Seq<u8>)>) -> Seq<([u8; 20], u64, u64)> {
    Seq::new(e.len(), |i: int| e[e.len() - 1 - i].0)
}

/// The `(start, end)` ranges of the keys of torrent `h`, in the order of `ks`.
pub open spec fn torrent_ranges(ks: Seq<([u8; 20], u64, u64)>, h: Seq<u8>) -> Seq<(u64, u64)>
    decreases ks.len(),
{
    if ks.len() == 0 {
        Seq::empty()
    } else if ks.last().0@ == h {
        torrent_ranges(ks.drop_last(), h).push((ks.last().1, ks.last().2))
    } else {
        torrent_ranges(ks.drop_last(), h)
    }
}

pub(crate) proof fn lemma_without_absent(e: Seq<(([u8; 20], u64, u64), Seq<u8>)>, ks: Set<([u8; 20], u64, u64)>, k: ([u8; 20], u64, u64))
    requires
        !entries_have_key(e, k),
    ensures
        without_keys(e, ks.insert(k)) == without_keys(e, ks),
    decreases e.len(),
{
    if e.len() > 0 {
        assert(e[0].0 != k);
        assert(!entries_have_key(e.drop_first(), k)) by {
            if entries_have_key(e.drop_first(), k) {
                let j = choose|j: int| 0 <= j < e.drop_first().len() && (#[trigger] e.drop_first()[j]).0 == k;
                assert(e[j + 1].0 == k);
            }
        }
        lemma_without_absent(e.drop_first(), ks, k);
    }
}

/// Where the `j`-th surviving entry of `without_keys(e, ks)` sits in `e`.
spec fn without_index(e: Seq<(([u8; 20], u64, u64), Seq<u8>)>, ks: Set<([u8; 20], u64, u64)>, j: int) -> int
    decreases e.len(),
{
    if e.len() == 0 {
        0
    } else if ks.contains(e[0].0) {
        1 + without_index(e.drop_first(), ks, j)
    } else if j == 0 {
        0
    } else {
        1 + without_index(e.drop_first(), ks, j - 1)
    }
}

proof fn lemma_without_index(e: Seq<(([u8; 20], u64, u64), Seq<u8>)>, ks: Set<([u8; 20], u64, u64)>)
    ensures
        forall|j: int| 0 <= j < without_keys(e, ks).len() ==> {
            &&& 0 <= #[trigger] without_index(e, ks, j) < e.len()
            &&& e[without_index(e, ks, j)] == without_keys(e, ks)[j]
            &&& !ks.contains(without_keys(e, ks)[j].0)
        },
        forall|i: int, j: int| 0 <= i < j < without_keys(e, ks).len() ==> #[trigger] without_index(e, ks, i) < #[trigger] without_index(e, ks, j),
        without_keys(e, ks).len() <= e.len(),
    decreases e.len(),
{
    if e.len() > 0 {
        let r = e.drop_first();
        lemma_without_index(r, ks);
        if ks.contains(e[0].0) {
            assert forall|j: int| 0 <= j < without_keys(e, ks).len() implies {
                &&& 0 <= #[trigger] without_index(e, ks, j) < e.len()
                &&& e[without_index(e, ks, j)] == without_keys(e, ks)[j]
                &&& !ks.contains(without_keys(e, ks)[j].0)
            } by {
                assert(without_index(e, ks, j) == 1 + without_index(r, ks, j));
                assert(e[1 + without_index(r, ks, j)] == r[without_index(r, ks, j)]);
            }
            assert forall|i: int, j: int| 0 <= i < j < without_keys(e, ks).len() implies #[trigger] without_index(e, ks, i) < #[trigger] without_index(e, ks, j) by {
                assert(without_index(r, ks, i) < without_index(r, ks, j));
            }
        } else {
            let w = seq![e[0]] + without_keys(r, ks);
            assert forall|j: int| 0 <= j < without_keys(e, ks).len() implies {
                &&& 0 <= #[trigger] without_index(e, ks, j) < e.len()
                &&& e[without_index(e, ks, j)] == without_keys(e, ks)[j]
                &&& !ks.contains(without_keys(e, ks)[j].0)
            } by {
                if j > 0 {
                    assert(w[j] == without_keys(r, ks)[j - 1]);
                    assert(e[1 + without_index(r, ks, j - 1)] == r[without_index(r, ks, j - 1)]);
                }
            }
            assert forall|i: int, j: int| 0 <= i < j < without_keys(e, ks).len() implies #[trigger] without_index(e, ks, i) < #[trigger] without_index(e, ks, j) by {
                if i > 0 {
                    assert(without_index(r, ks, i - 1) < without_index(r, ks, j - 1));
                } else {
                    assert(without_index(r, ks, j - 1) >= 0);
                }
            }
        }
    }
}

pub(crate) proof fn lemma_without_distinct(e: Seq<(([u8; 20], u64, u64), Seq<u8>)>, ks: Set<([u8; 20], u64, u64)>)
    requires
        entries_distinct(e),
    ensures
        entries_distinct(without_keys(e, ks)),
{
    lemma_without_index(e, ks);
    let w = without_keys(e, ks);
    assert forall|i: int, j: int| 0 <= i < j < w.len() implies (#[trigger] w[i]).0 != (#[trigger] w[j]).0 by {
        let a = without_index(e, ks, i);
        let b = without_index(e, ks, j);
        assert(a < b);
        assert(e[a].0 != e[b].0);
    }
}

pub(crate) proof fn lemma_without_remove(e: Seq<(([u8; 20], u64, u64), Seq<u8>)>, ks: Set<([u8; 20], u64, u64)>, k: ([u8; 20], u64, u64), i: int)
    requires
        entries_distinct(e),
        !ks.contains(k),
        0 <= i < without_keys(e, ks).len(),
        without_keys(e, ks)[i].0 == k,
    ensures
        without_keys(e, ks).remove(i) == without_keys(e, ks.insert(k)),
    decreases e.len(),
{
    assert(e.len() > 0);
    let rest = e.drop_first();
    assert(entries_distinct(rest)) by {
        assert forall|a: int, b: int| 0 <= a < b < rest.len() implies (#[trigger] rest[a]).0 != (#[trigger] rest[b]).0 by {
            assert(e[a + 1].0 != e[b + 1].0);
        }
    }
    if ks.contains(e[0].0) {
        assert(ks.insert(k).contains(e[0].0));
        lemma_without_remove(rest, ks, k, i);
    } else if e[0].0 == k {
        lemma_without_index(rest, ks);
        if i > 0 {
            let w = without_keys(rest, ks);
            assert(w[i - 1].0 == k);
            let m = without_index(rest, ks, i - 1);
            assert(rest[m] == w[i - 1]);
            assert(e[0].0 != e[m + 1].0);
        }
        assert(!entries_have_key(rest, k)) by {
            if entries_have_key(rest, k) {
                let j = choose|j: int| 0 <= j < rest.len() && (#[trigger] rest[j]).0 == k;
                assert(e[0].0 != e[j + 1].0);
            }
        }
        lemma_without_absent(rest, ks, k);
        assert((seq![e[0]] + without_keys(rest, ks)).remove(0) =~= without_keys(rest, ks));
    } else {
        assert(!ks.insert(k).contains(e[0].0));
        assert(i > 0);
        lemma_without_remove(rest, ks, k, i - 1);
        assert((seq![e[0]] + without_keys(rest, ks)).remove(i) =~= seq![e[0]] + without_keys(rest, ks).remove(i - 1));
    }
}

pub(crate) proof fn lemma_without_contains(e: Seq<(([u8; 20], u64, u64), Seq<u8>)>, ks: Set<([u8; 20], u64, u64)>, p: int)
    requires
        0 <= p < e.len(),
        !ks.contains(e[p].0),
    ensures
        entries_have_key(without_keys(e, ks), e[p].0),
    decreases e.len(),
{
    if p == 0 {
        let w = seq![e[0]] + without_keys(e.drop_first(), ks);
        assert(w[0].0 == e[0].0);
    } else {
        assert(e.drop_first()[p - 1] == e[p]);
        lemma_without_contains(e.drop_first(), ks, p - 1);
        let r = without_keys(e.drop_first(), ks);
        let j = choose|j: int| 0 <= j < r.len() && (#[trigger] r[j]).0 == e[p].0;
        if ks.contains(e[0].0) {
        } else {
            let w = seq![e[0]] + r;
            assert(w[j + 1] == r[j]);
        }
    }
}

pub(crate) proof fn lemma_without_is_drop(e: Seq<(([u8; 20], u64, u64), Seq<u8>)>, ks: Set<([u8; 20], u64, u64)>, h: Seq<u8>)
    requires
        forall|i: int| 0 <= i < e.len() ==> (ks.contains(#[trigger] e[i].0) <==> e[i].0.0@ == h),
    ensures
        without_keys(e, ks) == drop_torrent(e, h),
    decreases e.len(),
{
    if e.len() > 0 {
        assert(ks.contains(e[0].0) <==> e[0].0.0@ == h);
        assert forall|i: int| 0 <= i < e.drop_first().len() implies (ks.contains(#[trigger] e.drop_first()[i].0) <==> e.drop_first()[i].0.0@ == h) by {
            assert(e.drop_first()[i] == e[i + 1]);
        }
        lemma_without_is_drop(e.drop_first(), ks, h);
    }
}

pub(crate) proof fn lemma_without_empty(e: Seq<(([u8; 20], u64, u64), Seq<u8>)>)
    ensures
        without_keys(e, Set::empty()) == e,
    decreases e.len(),
{
    if e.len() > 0 {
        lemma_without_empty(e.drop_first());
        assert(seq![e[0]] + e.drop_first() =~= e);
    }
}

pub(crate) proof fn lemma_distinct_remove(e: Seq<(([u8; 20], u64, u64), Seq<u8>)>, i: int)
    requires
        entries_distinct(e),
        0 <= i < e.len(),
    ensures
        entries_distinct(e.remove(i)),
        !entries_have_key(e.remove(i), e[i].0),
{
    let r = e.remove(i);
    assert forall|a: int, b: int| 0 <= a < b < r.len() implies (#[trigger] r[a]).0 != (#[trigger] r[b]).0 by {
        let a2 = if a < i { a } else { a + 1 };
        let b2 = if b < i { b } else { b + 1 };
        assert(r[a] == e[a2]);
        assert(r[b] == e[b2]);
        assert(e[a2].0 != e[b2].0);
    }
    if entries_have_key(r, e[i].0) {
        let j = choose|j: int| 0 <= j < r.len() && (#[trigger] r[j]).0 == e[i].0;
        let j2 = if j < i { j } else { j + 1 };
        assert(r[j] == e[j2]);
        if j2 < i {
            assert(e[j2].0 != e[i].0);
        } else {
            assert(e[i].0 != e[j2].0);
        }
    }
}

pub(crate) proof fn lemma_distinct_push(e: Seq<(([u8; 20], u64, u64), Seq<u8>)>, x: (([u8; 20], u64, u64), Seq<u8>))
    requires
        entries_distinct(e),
        !entries_have_key(e, x.0),
    ensures
        entries_distinct(e.push(x)),
{
    let r = e.push(x);
    assert forall|a: int, b: int| 0 <= a < b < r.len() implies (#[trigger] r[a]).0 != (#[trigger] r[b]).0 by {
        if b == e.len() {
            assert(r[a] == e[a]);
            if e[a].0 == x.0 {
                assert(entries_have_key(e, x.0));
            }
        } else {
            assert(r[a] == e[a]);
            assert(r[b] == e[b]);
        }
    }
}

/// Read after write: once `put` has stored `v` under `k` (whatever the
/// evictions it made, starting from any entries and byte count), a lookup of
/// `k` returns `v`, and the keys stay distinct.
pub proof fn law_put_then_get(
    e: Seq<(([u8; 20], u64, u64), Seq<u8>)>,
    cap: nat,
    count: int,
    max_total: int,
    k: ([u8; 20], u64, u64),
    v: Seq<u8>,
)
    requires
        entries_distinct(e),
        e.len() <= cap,
        cap >= 1,
    ensures
        ({
            let after = lru_insert(e.skip(size_evictions(e, count, v.len() as int, max_total) as int), cap, k, v);
            &&& entries_distinct(after)
            &&& lru_lookup(after, k) == Some(v)
        }),
{
    let n = size_evictions(e, count, v.len() as int, max_total);
    lemma_size_evictions_bound(e, count, v.len() as int, max_total);
    let s = e.skip(n as int);
    assert(entries_distinct(s)) by {
        assert forall|a: int, b: int| 0 <= a < b < s.len() implies (#[trigger] s[a]).0 != (#[trigger] s[b]).0 by {
            assert(s[a] == e[a + n]);
            assert(s[b] == e[b + n]);
        }
    }
    let base = if entries_have_key(s, k) {
        let p = key_position(s, k);
        lemma_distinct_remove(s, p);
        s.remove(p)
    } else if s.len() == cap {
        assert(s.drop_first() =~= s.remove(0));
        lemma_distinct_remove(s, 0);
        if entries_have_key(s.drop_first(), k) {
            let j = choose|j: int| 0 <= j < s.drop_first().len() && (#[trigger] s.drop_first()[j]).0 == k;
            assert(s[j + 1].0 == k);
        }
        s.drop_first()
    } else {
        s
    };
    assert(lru_insert(s, cap, k, v) == base.push((k, v)));
    lemma_distinct_push(base, (k, v));
    let after = base.push((k, v));
    lemma_key_position(after, k, after.len() - 1);
}

proof fn lemma_size_evictions_bound(e: Seq<(([u8; 20], u64, u64), Seq<u8>)>, count: int, size: int, max_total: int)
    ensures
        size_evictions(e, count, size, max_total) <= e.len(),
    decreases e.len(),
{
    if e.len() > 0 && count + size > max_total {
        lemma_size_evictions_bound(e.drop_first(), count - e[0].1.len(), size, max_total);
    }
}

/// Clearing a torrent keeps exactly the entries of the other torrents.
pub proof fn law_clear_torrent_keeps_others(e: Seq<(([u8; 20], u64, u64), Seq<u8>)>, h: Seq<u8>)
    ensures
        forall|x: (([u8; 20], u64, u64), Seq<u8>)| #[trigger] drop_torrent(e, h).contains(x) <==> (e.contains(x) && x.0.0@ != h),
    decreases e.len(),
{
    if e.len() > 0 {
        let r = e.drop_first();
        law_clear_torrent_keeps_others(r, h);
        assert forall|x: (([u8; 20], u64, u64), Seq<u8>)| #[trigger] drop_torrent(e, h).contains(x) <==> (e.contains(x) && x.0.0@ != h) by {
            assert(e =~= seq![e[0]] + r);
            if e.contains(x) {
                let j = choose|j: int| 0 <= j < e.len() && e[j] == x;
                if j > 0 {
                    assert(r[j - 1] == x);
                    assert(r.contains(x));
                }
            }
            if r.contains(x) {
                let j = choose|j: int| 0 <= j < r.len() && r[j] == x;
                assert(e[j + 1] == x);
            }
            if e[0].0.0@ != h {
                let w = seq![e[0]] + drop_torrent(r, h);
                assert(w[0] == e[0]);
                if drop_torrent(r, h).contains(x) {
                    let j = choose|j: int| 0 <= j < drop_torrent(r, h).len() && drop_torrent(r, h)[j] == x;
                    assert(w[j + 1] == x);
                }
                if w.contains(x) {
                    let j = choose|j: int| 0 <= j < w.len() && w[j] == x;
                    if j > 0 {
                        assert(drop_torrent(r, h)[j - 1] == x);
                    }
                }
            }
        }
    }
}

/// A least-recently-used cache of assembled byte ranges, counting hits,
/// misses, evictions and the bytes it holds.
pub struct StorageCache {
    cache: LruCache<([u8; 20], u64, u64), Vec<u8>>,
    config: StorageCacheConfig,
    hit_count: u64,
    miss_count: u64,
    eviction_count: u64,
    current_size: usize,
}

impl StorageCache {
    /// The cached entries, least recently used first.
    pub closed spec fn spec_entries(&self) -> Seq<(([u8; 20], u64, u64), Seq<u8>)> {
        lru_entries(self.cache)
    }

    /// The entry count limit of the cache.
    pub closed spec fn spec_capacity(&self) -> nat {
        lru_capacity(self.cache)
    }

    /// The configuration.
    pub closed spec fn spec_config(&self) -> StorageCacheConfig {
        self.config
    }

    /// The byte count the cache keeps: the bytes of the values it holds
    /// (see `law_size_covers_bytes_held`), and more once a full cache has
    /// dropped an entry for a new key: those bytes are never subtracted.
    pub closed spec fn spec_current_size(&self) -> usize {
        self.current_size
    }

    /// Lookups that found their key.
    pub closed spec fn spec_hits(&self) -> u64 {
        self.hit_count
    }

    /// Lookups that did not find their key.
    pub closed spec fn spec_misses(&self) -> u64 {
        self.miss_count
    }

    /// Entries evicted to stay within the byte budget.
    pub closed spec fn spec_evictions(&self) -> u64 {
        self.eviction_count
    }

    /// The cache's invariant: the `lru` cache keeps its shape, and the byte
    /// count is the sum of the lengths of the values held.
    pub closed spec fn wf(&self) -> bool {
        &&& lru_wf(self.cache)
        &&& self.current_size >= entry_bytes(lru_entries(self.cache))
    }

    /// The byte count of a well-formed cache covers the lengths of the
    /// values it holds, and it holds at most as many entries as its
    /// capacity.
    pub proof fn law_size_covers_bytes_held(&self)
        requires
            self.wf(),
        ensures
            self.spec_current_size() >= entry_bytes(self.spec_entries()),
            self.spec_entries().len() <= self.spec_capacity(),
    {
    }

    /// An empty cache; a configured entry limit of zero falls back to 64.
    pub fn new(config: StorageCacheConfig) -> (c: StorageCache)
        ensures
            c.wf(),
            c.spec_entries() == Seq::<(([u8; 20], u64, u64), Seq<u8>)>::empty(),
            c.spec_capacity() == if config.max_entries == 0 { 64 } else { config.max_entries as nat },
            c.spec_config() == config,
            c.spec_current_size() == 0,
            c.spec_hits() == 0,
            c.spec_misses() == 0,
            c.spec_evictions() == 0,
    {
        let capacity = if config.max_entries == 0 { 64 } else { config.max_entries };
        let cache = lru_new(capacity);
        proof {
            assert(entry_bytes(lru_entries(cache)) == 0);
        }
        StorageCache { cache, config, hit_count: 0, miss_count: 0, eviction_count: 0, current_size: 0 }
    }

    /// A cache with the default configuration.
    pub fn new_default() -> (c: StorageCache)
        ensures
            c.wf(),
            c.spec_entries() == Seq::<(([u8; 20], u64, u64), Seq<u8>)>::empty(),
            c.spec_capacity() == 64,
            c.spec_config().max_entries == 64,
            c.spec_config().max_entry_size == 1024 * 1024,
            c.spec_config().max_total_size == 64 * 1024 * 1024,
            c.spec_current_size() == 0,
    {
        Self::new(StorageCacheConfig::default())
    }

    /// Looks up a range: a hit returns the bytes, makes the entry the most
    /// recently used one and counts a hit; a miss counts a miss.
    pub fn get(&mut self, key: &CacheKey) -> (r: Option<Vec<u8>>)
        requires
            old(self).wf(),
            old(self).spec_hits() < u64::MAX,
            old(self).spec_misses() < u64::MAX,
        ensures
            final(self).wf(),
            final(self).spec_entries() == lru_touch(old(self).spec_entries(), key_tuple(*key)),
            match lru_lookup(old(self).spec_entries(), key_tuple(*key)) {
                Some(v) => r is Some && r->Some_0@ == v,
                None => r is None,
            },
            final(self).spec_hits() == old(self).spec_hits() + if r is Some { 1int } else { 0 },
            final(self).spec_misses() == old(self).spec_misses() + if r is Some { 0int } else { 1 },
            final(self).spec_capacity() == old(self).spec_capacity(),
            final(self).spec_config() == old(self).spec_config(),
            final(self).spec_current_size() == old(self).spec_current_size(),
            final(self).spec_evictions() == old(self).spec_evictions(),
    {
        let k = key.tuple();
        let ghost e = lru_entries(self.cache);
        let r = lru_get(&mut self.cache, &k);
        proof {
            if entries_have_key(e, k) {
                let i = choose|i: int| 0 <= i < e.len() && (#[trigger] e[i]).0 == k
                    && r is Some && r->Some_0@ == e[i].1
                    && lru_entries(self.cache) == e.remove(i).push(e[i]);
                lemma_key_position(e, k, i);
                lemma_entry_bytes_remove(e, i);
                lemma_entry_bytes_push(e.remove(i), e[i]);
            }
        }
        match r {
            Some(data) => {
                self.hit_count = self.hit_count + 1;
                Some(data)
            },
            None => {
                self.miss_count = self.miss_count + 1;
                None
            },
        }
    }

    /// The number of entries `put` evicts for an entry of `size` bytes.
    pub open spec fn spec_put_evictions(&self, size: int) -> nat {
        size_evictions(self.spec_entries(), self.spec_current_size() as int, size, self.spec_config().max_total_size as int)
    }

    /// Stores `data` under `key`.
    ///
    /// Data larger than `max_entry_size` is refused with `EntryTooLarge`.
    /// Otherwise, while the byte count plus the new size exceeds
    /// `max_total_size` and the cache is not empty, the least recently used
    /// entry is evicted (its bytes released, one eviction counted); then the
    /// entry is stored as the most recently used one (see `lru_insert` and
    /// `count_after_insert`).
    pub fn put(&mut self, key: CacheKey, data: Vec<u8>) -> (r: Result<(), StorageCacheError>)
        requires
            old(self).wf(),
            old(self).spec_current_size() + data@.len() <= usize::MAX,
            old(self).spec_evictions() + old(self).spec_entries().len() <= u64::MAX,
        ensures
            final(self).wf(),
            final(self).spec_capacity() == old(self).spec_capacity(),
            final(self).spec_config() == old(self).spec_config(),
            final(self).spec_hits() == old(self).spec_hits(),
            final(self).spec_misses() == old(self).spec_misses(),
            data@.len() > old(self).spec_config().max_entry_size ==> {
                &&& r == Err::<(), StorageCacheError>(StorageCacheError::EntryTooLarge {
                    size: data@.len() as usize,
                    limit: old(self).spec_config().max_entry_size,
                })
                &&& final(self).spec_entries() == old(self).spec_entries()
                &&& final(self).spec_current_size() == old(self).spec_current_size()
                &&& final(self).spec_evictions() == old(self).spec_evictions()
            },
            data@.len() <= old(self).spec_config().max_entry_size ==> ({
                let k = old(self).spec_put_evictions(data@.len() as int);
                let survivors = old(self).spec_entries().skip(k as int);
                let count = old(self).spec_current_size() - entry_bytes(old(self).spec_entries().take(k as int));
                &&& r is Ok
                &&& final(self).spec_evictions() == old(self).spec_evictions() + k
                &&& final(self).spec_entries() == lru_insert(survivors, old(self).spec_capacity(), key_tuple(key), data@)
                &&& final(self).spec_current_size() == count_after_insert(survivors, count, key_tuple(key), data@.len() as int)
                &&& data@.len() <= old(self).spec_config().max_total_size ==> entry_bytes(final(self).spec_entries()) <= old(self).spec_config().max_total_size
                &&& lru_lookup(final(self).spec_entries(), key_tuple(key)) == Some(data@)
                &&& entries_have_key(final(self).spec_entries(), key_tuple(key))
            }),
    {
        if data.len() > self.config.max_entry_size {
            return Err(StorageCacheError::EntryTooLarge { size: data.len(), limit: self.config.max_entry_size });
        }
        let entry_size = data.len();
        let ghost e0 = lru_entries(self.cache);
        let ghost c0 = self.current_size as int;
        let ghost mt = self.config.max_total_size as int;
        let ghost mut k: int = 0;
        proof {
            assert(e0.skip(0) =~= e0);
            assert(e0.take(0) =~= Seq::<(([u8; 20], u64, u64), Seq<u8>)>::empty());
        }
        while self.current_size + entry_size > self.config.max_total_size && lru_len(&self.cache) > 0
            invariant
                0 <= k <= e0.len(),
                lru_wf(self.cache),
                lru_entries(self.cache) == e0.skip(k),
                lru_capacity(self.cache) == lru_capacity(old(self).cache),
                e0 == lru_entries(old(self).cache),
                c0 == old(self).current_size,
                mt == self.config.max_total_size,
                self.config == old(self).config,
                self.current_size == c0 - entry_bytes(e0.take(k)),
                self.current_size >= entry_bytes(lru_entries(self.cache)),
                self.current_size <= c0,
                c0 + entry_size <= usize::MAX,
                entry_size == data@.len(),
                forall|j: int| 0 <= j < k ==> c0 - entry_bytes(#[trigger] e0.take(j)) + entry_size > mt,
                self.eviction_count == old(self).eviction_count + k,
                old(self).eviction_count + e0.len() <= u64::MAX,
                self.hit_count == old(self).hit_count,
                self.miss_count == old(self).miss_count,
            decreases lru_entries(self.cache).len(),
        {
            let ghost before = lru_entries(self.cache);
            let popped = lru_pop_lru(&mut self.cache);
            match popped {
                Some((_, evicted)) => {
                    proof {
                        assert(before[0] == e0[k]);
                        assert(before.drop_first() =~= e0.skip(k + 1));
                        assert(e0.take(k + 1) =~= e0.take(k) + seq![e0[k]]);
                        lemma_entry_bytes_concat(e0.take(k), seq![e0[k]]);
                        lemma_entry_bytes_single(e0[k]);
                        lemma_entry_bytes_remove(before, 0);
                        assert(before.remove(0) =~= before.drop_first());
                    }
                    self.current_size = self.current_size - evicted.len();
                    self.eviction_count = self.eviction_count + 1;
                    proof {
                        k = k + 1;
                    }
                },
                None => {
                    proof {
                        assert(false);
                    }
                },
            }
        }
        proof {
            lemma_size_evictions_step(e0, k, c0, entry_size as int, mt);
            let rest = e0.skip(k);
            if rest.len() > 0 {
                assert(!(self.current_size + entry_size > mt));
            }
        }
        let ghost survivors = lru_entries(self.cache);
        let ghost count = self.current_size as int;
        let ghost dv = data@;
        let kt = key.tuple();
        proof {
            lemma_entry_bytes_nonneg(survivors);
            assert(count + entry_size <= mt || survivors.len() == 0);
        }
        let old_value = lru_put(&mut self.cache, kt, data);
        proof {
            if entries_have_key(survivors, kt) {
                let i = choose|i: int| 0 <= i < survivors.len() && (#[trigger] survivors[i]).0 == kt
                    && old_value is Some && old_value->Some_0@ == survivors[i].1
                    && lru_entries(self.cache) == survivors.remove(i).push((kt, dv));
                lemma_key_position(survivors, kt, i);
                lemma_entry_bytes_remove(survivors, i);
                lemma_entry_bytes_push(survivors.remove(i), (kt, dv));
            } else if survivors.len() == lru_capacity(self.cache) {
                lemma_entry_bytes_remove(survivors, 0);
                assert(survivors.remove(0) =~= survivors.drop_first());
                lemma_entry_bytes_push(survivors.drop_first(), (kt, dv));
            } else {
                lemma_entry_bytes_push(survivors, (kt, dv));
            }
            law_put_then_get(e0, lru_capacity(self.cache), c0, mt, kt, dv);
        }
        match old_value {
            Some(old_data) => {
                self.current_size = self.current_size - old_data.len();
            },
            None => {},
        }
        self.current_size = self.current_size + entry_size;
        Ok(())
    }

    /// Whether a range is cached (recency is not touched).
    pub fn contains_key(&self, key: &CacheKey) -> (b: bool)
        ensures
            b == entries_have_key(self.spec_entries(), key_tuple(*key)),
    {
        lru_contains(&self.cache, &key.tuple())
    }

    /// Removes every entry and resets the byte count.
    pub fn clear_all(&mut self)
        requires
            old(self).wf(),
        ensures
            final(self).wf(),
            final(self).spec_entries() == Seq::<(([u8; 20], u64, u64), Seq<u8>)>::empty(),
            final(self).spec_current_size() == 0,
            final(self).spec_capacity() == old(self).spec_capacity(),
            final(self).spec_config() == old(self).spec_config(),
            final(self).spec_hits() == old(self).spec_hits(),
            final(self).spec_misses() == old(self).spec_misses(),
            final(self).spec_evictions() == old(self).spec_evictions(),
    {
        lru_clear(&mut self.cache);
        self.current_size = 0;
        proof {
            assert(entry_bytes(lru_entries(self.cache)) == 0);
        }
    }

    /// Resets the hit, miss and eviction counters.
    pub fn reset_statistics(&mut self)
        requires
            old(self).wf(),
        ensures
            final(self).wf(),
            final(self).spec_hits() == 0,
            final(self).spec_misses() == 0,
            final(self).spec_evictions() == 0,
            final(self).spec_entries() == old(self).spec_entries(),
            final(self).spec_current_size() == old(self).spec_current_size(),
            final(self).spec_capacity() == old(self).spec_capacity(),
            final(self).spec_config() == old(self).spec_config(),
    {
        self.hit_count = 0;
        self.miss_count = 0;
        self.eviction_count = 0;
    }

    /// The number of cached entries.
    pub fn entry_count(&self) -> (n: usize)
        ensures
            n == self.spec_entries().len(),
    {
        lru_len(&self.cache)
    }

    /// The entry count limit.
    pub fn capacity(&self) -> (n: usize)
        ensures
            n == self.spec_capacity(),
    {
        lru_cap(&self.cache)
    }

    /// The byte count kept by the cache.
    pub fn total_size(&self) -> (n: usize)
        ensures
            n == self.spec_current_size(),
    {
        self.current_size
    }

    /// Lookups that found their key.
    pub fn hit_count(&self) -> (n: u64)
        ensures
            n == self.spec_hits(),
    {
        self.hit_count
    }

    /// Lookups that did not find their key.
    pub fn miss_count(&self) -> (n: u64)
        ensures
            n == self.spec_misses(),
    {
        self.miss_count
    }

    /// Entries evicted to stay within the byte budget.
    pub fn eviction_count(&self) -> (n: u64)
        ensures
            n == self.spec_evictions(),
    {
        self.eviction_count
    }

    /// Removes every entry of the torrent `info_hash`, releasing their bytes;
    /// the other entries keep their order.
    pub fn clear_torrent(&mut self, info_hash: InfoHash)
        requires
            old(self).wf(),
        ensures
            final(self).wf(),
            final(self).spec_entries() == drop_torrent(old(self).spec_entries(), info_hash.0@),
            final(self).spec_current_size() == old(self).spec_current_size() - (entry_bytes(old(self).spec_entries())
                - entry_bytes(drop_torrent(old(self).spec_entries(), info_hash.0@))),
            final(self).spec_capacity() == old(self).spec_capacity(),
            final(self).spec_config() == old(self).spec_config(),
            final(self).spec_hits() == old(self).spec_hits(),
            final(self).spec_misses() == old(self).spec_misses(),
            final(self).spec_evictions() == old(self).spec_evictions(),
    {
        let keys = lru_keys_mru_first(&self.cache);
        let ghost e0 = lru_entries(self.cache);
        let ghost c0 = self.current_size as int;
        let ghost mut removed: Set<([u8; 20], u64, u64)> = Set::empty();
        let n = keys.len();
        let mut i: usize = 0;
        proof {
            lemma_without_empty(e0);
            lemma_entry_bytes_nonneg(e0);
        }
        while i < n
            invariant
                n == keys@.len(),
                n == e0.len(),
                i <= n,
                forall|j: int| 0 <= j < keys@.len() ==> #[trigger] keys@[j] == e0[e0.len() - 1 - j].0,
                entries_distinct(e0),
                lru_wf(self.cache),
                e0 == lru_entries(old(self).cache),
                lru_capacity(self.cache) == lru_capacity(old(self).cache),
                lru_entries(self.cache) == without_keys(e0, removed),
                forall|x: ([u8; 20], u64, u64)| removed.contains(x) <==> exists|j: int| 0 <= j < i && #[trigger] keys@[j] == x && x.0@ == info_hash.0@,
                c0 == old(self).current_size,
                self.current_size == c0 - (entry_bytes(e0) - entry_bytes(lru_entries(self.cache))),
                self.current_size >= entry_bytes(lru_entries(self.cache)),
                self.config == old(self).config,
                self.hit_count == old(self).hit_count,
                self.miss_count == old(self).miss_count,
                self.eviction_count == old(self).eviction_count,
            decreases n - i,
        {
            let k = keys[i];
            if InfoHash(k.0) == info_hash {
                let ghost before = lru_entries(self.cache);
                proof {
                    assert(!removed.contains(k)) by {
                        if removed.contains(k) {
                            let j = choose|j: int| 0 <= j < i && #[trigger] keys@[j] == k && k.0@ == info_hash.0@;
                            assert(e0[e0.len() - 1 - j].0 != e0[e0.len() - 1 - i].0);
                        }
                    }
                    let p = e0.len() - 1 - i;
                    assert(e0[p].0 == k);
                    lemma_without_distinct(e0, removed);
                    assert(entries_have_key(before, k)) by {
                        // e0[p] survives: its key is not removed
                        lemma_without_contains(e0, removed, p);
                    }
                }
                let popped = lru_pop(&mut self.cache, &k);
                proof {
                    let j = choose|j: int| 0 <= j < before.len() && (#[trigger] before[j]).0 == k
                        && popped is Some && popped->Some_0@ == before[j].1
                        && lru_entries(self.cache) == before.remove(j);
                    lemma_without_remove(e0, removed, k, j);
                    lemma_entry_bytes_remove(before, j);
                    removed = removed.insert(k);
                }
                match popped {
                    Some(v) => {
                        self.current_size = self.current_size - v.len();
                    },
                    None => {},
                }
            }
            i = i + 1;
        }
        proof {
            assert forall|j: int| 0 <= j < e0.len() implies (removed.contains(#[trigger] e0[j].0) <==> e0[j].0.0@ == info_hash.0@) by {
                let m = e0.len() - 1 - j;
                assert(keys@[m] == e0[j].0);
                if removed.contains(e0[j].0) {
                    let q = choose|q: int| 0 <= q < n && #[trigger] keys@[q] == e0[j].0 && e0[j].0.0@ == info_hash.0@;
                }
            }
            lemma_without_is_drop(e0, removed, info_hash.0@);
        }
    }

    /// The ranges cached for the torrent `info_hash`, from the most recently
    /// used to the least.
    pub fn cached_ranges(&self, info_hash: InfoHash) -> (rs: Vec<Range<u64>>)
        ensures
            rs@.len() == torrent_ranges(keys_mru_first(self.spec_entries()), info_hash.0@).len(),
            forall|i: int| 0 <= i < rs@.len() ==> (#[trigger] rs@[i]).start == torrent_ranges(keys_mru_first(self.spec_entries()), info_hash.0@)[i].0
                && rs@[i].end == torrent_ranges(keys_mru_first(self.spec_entries()), info_hash.0@)[i].1,
    {
        let keys = lru_keys_mru_first(&self.cache);
        let ghost ks = keys_mru_first(lru_entries(self.cache));
        proof {
            assert(keys@ =~= ks);
        }
        let mut out: Vec<Range<u64>> = Vec::new();
        let n = keys.len();
        let mut i: usize = 0;
        proof {
            assert(ks.take(0) =~= Seq::<([u8; 20], u64, u64)>::empty());
        }
        while i < n
            invariant
                n == keys@.len(),
                keys@ == ks,
                i <= n,
                out@.len() == torrent_ranges(ks.take(i as int), info_hash.0@).len(),
                forall|j: int| 0 <= j < out@.len() ==> (#[trigger] out@[j]).start == torrent_ranges(ks.take(i as int), info_hash.0@)[j].0
                    && out@[j].end == torrent_ranges(ks.take(i as int), info_hash.0@)[j].1,
            decreases n - i,
        {
            let k = keys[i];
            proof {
                assert(ks.take(i + 1).drop_last() =~= ks.take(i as int));
                assert(ks.take(i + 1).last() == k);
            }
            if InfoHash(k.0) == info_hash {
                out.push(k.1..k.2);
            }
            i = i + 1;
        }
        proof {
            assert(ks.take(n as int) =~= ks);
        }
        out
    }
}

} // verus!