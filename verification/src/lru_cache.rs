//! The `lru` crate's cache, as the range cache uses it: keys identify a
//! byte range of a torrent, values are the range's bytes.
//!
//! The cache's contents are named by `lru_entries`: its entries from the
//! least recently used to the most recently used, each a key and the bytes
//! stored under it. Every contract below was read off `lru::LruCache`'s source.
use lru::LruCache;
use vstd::prelude::*;

verus! {

#[verifier::external_type_specification]
#[verifier::external_body]
#[verifier::reject_recursive_types(K)]
#[verifier::reject_recursive_types(V)]
#[verifier::reject_recursive_types(S)]
pub struct ExLruCache<K, V, S>(LruCache<K, V, S>);

#[verifier::external_type_specification]
#[verifier::external_body]
pub struct ExLruDefaultHasher(lru::DefaultHasher);

/// The entries of a range cache, least recently used first.
pub uninterp spec fn lru_entries(c: LruCache<([u8; 20], u64, u64), Vec<u8>>) -> Seq<(([u8; 20], u64, u64), Seq<u8>)>;

/// The capacity (maximum entry count) a range cache was made with.
pub uninterp spec fn lru_capacity(c: LruCache<([u8; 20], u64, u64), Vec<u8>>) -> nat;

/// Whether a key occurs among the entries.
pub open spec fn entries_have_key(e: Seq<(([u8; 20], u64, u64), Seq<u8>)>, k: ([u8; 20], u64, u64)) -> bool {
    exists|i: int| 0 <= i < e.len() && (#[trigger] e[i]).0 == k
}

/// Whether no key occurs twice among the entries.
pub open spec fn entries_distinct(e: Seq<(([u8; 20], u64, u64), Seq<u8>)>) -> bool {
    forall|i: int, j: int| 0 <= i < j < e.len() ==> (#[trigger] e[i]).0 != (#[trigger] e[j]).0
}

/// The shape every range cache keeps: distinct keys, at most `capacity`
/// entries, and a capacity of at least one.
pub open spec fn lru_wf(c: LruCache<([u8; 20], u64, u64), Vec<u8>>) -> bool {
    &&& entries_distinct(lru_entries(c))
    &&& lru_entries(c).len() <= lru_capacity(c)
    &&& lru_capacity(c) >= 1
}

/// `LruCache::new` with capacity `cap`: an empty cache.
#[verifier::external_body]
pub(crate) fn lru_new(cap: usize) -> (c: LruCache<([u8; 20], u64, u64), Vec<u8>>)
    requires
        cap >= 1,
    ensures
        lru_entries(c) == Seq::<(([u8; 20], u64, u64), Seq<u8>)>::empty(),
        lru_capacity(c) == cap,
        lru_wf(c),
{
    LruCache::new(std::num::NonZeroUsize::new(cap).unwrap())
}

/// `LruCache::get`, handing out a copy of the value: a present key's entry
/// becomes the most recently used one; an absent key changes nothing.
#[verifier::external_body]
pub(crate) fn lru_get(c: &mut LruCache<([u8; 20], u64, u64), Vec<u8>>, k: &([u8; 20], u64, u64)) -> (r: Option<Vec<u8>>)
    requires
        lru_wf(*old(c)),
    ensures
        lru_wf(*final(c)),
        lru_capacity(*final(c)) == lru_capacity(*old(c)),
        !entries_have_key(lru_entries(*old(c)), *k) ==> r is None && lru_entries(*final(c)) == lru_entries(*old(c)),
        entries_have_key(lru_entries(*old(c)), *k) ==> exists|i: int|
            0 <= i < lru_entries(*old(c)).len() && (#[trigger] lru_entries(*old(c))[i]).0 == *k
            && r is Some && r->Some_0@ == lru_entries(*old(c))[i].1
            && lru_entries(*final(c)) == lru_entries(*old(c)).remove(i).push(lru_entries(*old(c))[i]),
{
    c.get(k).cloned()
}

/// `LruCache::put`: a present key gets the new value, becomes the most
/// recently used entry, and its old value is returned; an absent key is
/// added as the most recently used entry, after silently dropping the least
/// recently used entry when the cache is full, and `None` is returned.
#[verifier::external_body]
pub(crate) fn lru_put(c: &mut LruCache<([u8; 20], u64, u64), Vec<u8>>, k: ([u8; 20], u64, u64), v: Vec<u8>) -> (r: Option<Vec<u8>>)
    requires
        lru_wf(*old(c)),
    ensures
        lru_wf(*final(c)),
        lru_capacity(*final(c)) == lru_capacity(*old(c)),
        entries_have_key(lru_entries(*old(c)), k) ==> exists|i: int|
            0 <= i < lru_entries(*old(c)).len() && (#[trigger] lru_entries(*old(c))[i]).0 == k
            && r is Some && r->Some_0@ == lru_entries(*old(c))[i].1
            && lru_entries(*final(c)) == lru_entries(*old(c)).remove(i).push((k, v@)),
        !entries_have_key(lru_entries(*old(c)), k) ==> r is None && lru_entries(*final(c)) == (
            if lru_entries(*old(c)).len() == lru_capacity(*old(c)) {
                lru_entries(*old(c)).drop_first().push((k, v@))
            } else {
                lru_entries(*old(c)).push((k, v@))
            }),
{
    c.put(k, v)
}

/// `LruCache::pop_lru`: removes and returns the least recently used entry.
#[verifier::external_body]
pub(crate) fn lru_pop_lru(c: &mut LruCache<([u8; 20], u64, u64), Vec<u8>>) -> (r: Option<(([u8; 20], u64, u64), Vec<u8>)>)
    requires
        lru_wf(*old(c)),
    ensures
        lru_wf(*final(c)),
        lru_capacity(*final(c)) == lru_capacity(*old(c)),
        lru_entries(*old(c)).len() == 0 ==> r is None && lru_entries(*final(c)) == lru_entries(*old(c)),
        lru_entries(*old(c)).len() > 0 ==> r is Some && r->Some_0.0 == lru_entries(*old(c))[0].0
            && r->Some_0.1@ == lru_entries(*old(c))[0].1
            && lru_entries(*final(c)) == lru_entries(*old(c)).drop_first(),
{
    c.pop_lru()
}

/// `LruCache::pop`: removes the entry of a key and returns its value.
#[verifier::external_body]
pub(crate) fn lru_pop(c: &mut LruCache<([u8; 20], u64, u64), Vec<u8>>, k: &([u8; 20], u64, u64)) -> (r: Option<Vec<u8>>)
    requires
        lru_wf(*old(c)),
    ensures
        lru_wf(*final(c)),
        lru_capacity(*final(c)) == lru_capacity(*old(c)),
        !entries_have_key(lru_entries(*old(c)), *k) ==> r is None && lru_entries(*final(c)) == lru_entries(*old(c)),
        entries_have_key(lru_entries(*old(c)), *k) ==> exists|i: int|
            0 <= i < lru_entries(*old(c)).len() && (#[trigger] lru_entries(*old(c))[i]).0 == *k
            && r is Some && r->Some_0@ == lru_entries(*old(c))[i].1
            && lru_entries(*final(c)) == lru_entries(*old(c)).remove(i),
{
    c.pop(k)
}

/// `LruCache::contains`: whether a key is present, without touching recency.
#[verifier::external_body]
pub(crate) fn lru_contains(c: &LruCache<([u8; 20], u64, u64), Vec<u8>>, k: &([u8; 20], u64, u64)) -> (b: bool)
    ensures
        b == entries_have_key(lru_entries(*c), *k),
{
    c.contains(k)
}

/// `LruCache::len`: the number of entries.
#[verifier::external_body]
pub(crate) fn lru_len(c: &LruCache<([u8; 20], u64, u64), Vec<u8>>) -> (n: usize)
    ensures
        n == lru_entries(*c).len(),
{
    c.len()
}

/// `LruCache::cap`: the capacity.
#[verifier::external_body]
pub(crate) fn lru_cap(c: &LruCache<([u8; 20], u64, u64), Vec<u8>>) -> (n: usize)
    ensures
        n == lru_capacity(*c),
{
    c.cap().get()
}

/// `LruCache::clear`: removes every entry.
#[verifier::external_body]
pub(crate) fn lru_clear(c: &mut LruCache<([u8; 20], u64, u64), Vec<u8>>)
    requires
        lru_wf(*old(c)),
    ensures
        lru_wf(*final(c)),
        lru_capacity(*final(c)) == lru_capacity(*old(c)),
        lru_entries(*final(c)) == Seq::<(([u8; 20], u64, u64), Seq<u8>)>::empty(),
{
    c.clear()
}

/// `LruCache::iter`, keeping only the keys: the keys from the most recently
/// used to the least recently used.
#[verifier::external_body]
pub(crate) fn lru_keys_mru_first(c: &LruCache<([u8; 20], u64, u64), Vec<u8>>) -> (ks: Vec<([u8; 20], u64, u64)>)
    ensures
        ks@.len() == lru_entries(*c).len(),
        forall|i: int| 0 <= i < ks@.len() ==> #[trigger] ks@[i] == lru_entries(*c)[lru_entries(*c).len() - 1 - i].0,
{
    c.iter().map(|(k, _)| *k).collect()
}

} // verus!
