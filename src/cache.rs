use vstd::prelude::*;
use lru::LruCache;
use crate::codec::slice_to_vec;
use crate::error::RetrieveError;
use crate::page::PageIndex;

verus! {

/// Number of shards that a cache splits its indices over.
pub const CACHE_SHARDS: usize = 64;

/// An `lru::LruCache` from page index to payload, opaque to proofs; what it
/// holds is spoken of through `lru_entries` and `lru_capacity`.
#[verifier::external_body]
pub struct LruMap {
    map: LruCache<u64, Vec<u8>>,
}

/// The entries of an LRU map, least recently used first.
pub uninterp spec fn lru_entries(c: LruMap) -> Seq<(u64, Seq<u8>)>;

/// The number of entries an LRU map holds at most.
pub uninterp spec fn lru_capacity(c: LruMap) -> nat;

/// The value stored under `k`, looking from the most recent entry back.
pub open spec fn lookup(s: Seq<(u64, Seq<u8>)>, k: u64) -> Option<Seq<u8>>
    decreases s.len(),
{
    if s.len() == 0 {
        None
    } else if s.last().0 == k {
        Some(s.last().1)
    } else {
        lookup(s.drop_last(), k)
    }
}

pub open spec fn without_key(s: Seq<(u64, Seq<u8>)>, k: u64) -> Seq<(u64, Seq<u8>)> {
    s.filter(|e: (u64, Seq<u8>)| e.0 != k)
}

/// Entries after a lookup of `k`: a present key becomes the most recent.
pub open spec fn lru_touch(s: Seq<(u64, Seq<u8>)>, k: u64) -> Seq<(u64, Seq<u8>)> {
    match lookup(s, k) {
        Some(v) => without_key(s, k).push((k, v)),
        None => s,
    }
}

/// Entries after storing `v` under `k`: the key becomes the most recent; a
/// new key in a full map first evicts the least recent entry.
pub open spec fn lru_insert(s: Seq<(u64, Seq<u8>)>, cap: nat, k: u64, v: Seq<u8>) -> Seq<
    (u64, Seq<u8>),
> {
    if lookup(s, k) is Some {
        without_key(s, k).push((k, v))
    } else if s.len() >= cap {
        s.drop_first().push((k, v))
    } else {
        s.push((k, v))
    }
}

/// Relies on lru::LruCache::new: an empty map that holds `cap` entries at most.
#[verifier::external_body]
fn lru_new(cap: usize) -> (r: LruMap)
    requires
        cap > 0,
    ensures
        lru_entries(r) == Seq::<(u64, Seq<u8>)>::empty(),
        lru_capacity(r) == cap,
{
    LruMap { map: LruCache::new(std::num::NonZeroUsize::new(cap).unwrap()) }
}

/// Relies on lru::LruCache::get: the value under `k`, if any, which then
/// becomes the most recently used entry.
#[verifier::external_body]
fn lru_get(c: &mut LruMap, k: u64) -> (r: Option<Vec<u8>>)
    ensures
        lru_entries(*final(c)) == lru_touch(lru_entries(*old(c)), k),
        lru_capacity(*final(c)) == lru_capacity(*old(c)),
        r is Some <==> lookup(lru_entries(*old(c)), k) is Some,
        r matches Some(v) ==> lookup(lru_entries(*old(c)), k) == Some(v@),
{
    c.map.get(&k).cloned()
}

/// Relies on lru::LruCache::put: stores `v` under `k` as the most recent
/// entry, evicting the least recent one when a new key finds the map full.
#[verifier::external_body]
fn lru_put(c: &mut LruMap, k: u64, v: Vec<u8>)
    ensures
        lru_entries(*final(c)) == lru_insert(
            lru_entries(*old(c)),
            lru_capacity(*old(c)),
            k,
            v@,
        ),
        lru_capacity(*final(c)) == lru_capacity(*old(c)),
{
    c.map.put(k, v);
}

/// No key occurs twice among the entries.
pub open spec fn unique_keys(s: Seq<(u64, Seq<u8>)>) -> bool {
    forall|i: int, j: int| 0 <= i < j < s.len() ==> s[i].0 != s[j].0
}

pub proof fn lemma_lookup_absent(s: Seq<(u64, Seq<u8>)>, k: u64)
    requires
        forall|i: int| 0 <= i < s.len() ==> s[i].0 != k,
    ensures
        lookup(s, k) is None,
    decreases s.len(),
{
    if s.len() > 0 {
        assert(s.last().0 != k);
        lemma_lookup_absent(s.drop_last(), k);
    }
}

pub proof fn lemma_lookup_none_absent(s: Seq<(u64, Seq<u8>)>, k: u64)
    requires
        lookup(s, k) is None,
    ensures
        forall|i: int| 0 <= i < s.len() ==> s[i].0 != k,
    decreases s.len(),
{
    if s.len() > 0 {
        lemma_lookup_none_absent(s.drop_last(), k);
        assert forall|i: int| 0 <= i < s.len() implies s[i].0 != k by {
            if i < s.len() - 1 {
                assert(s.drop_last()[i] == s[i]);
            }
        }
    }
}

/// Which way a request for `idx` goes, given the cached entries and the
/// indices whose loads are in flight.
#[derive(Clone, Copy, Debug, PartialEq, Eq, Structural)]
pub enum LookupKind {
    /// Served from the cache.
    Hit,
    /// Waits on the load already in flight.
    Join,
    /// Starts a new load.
    Load,
}

pub open spec fn decide(entries: Seq<(u64, Seq<u8>)>, loading: Set<u64>, idx: u64) -> LookupKind {
    if lookup(entries, idx) is Some {
        LookupKind::Hit
    } else if loading.contains(idx) {
        LookupKind::Join
    } else {
        LookupKind::Load
    }
}

/// What a shard tells a caller to do for one request.
pub enum Lookup {
    /// The cached payload.
    Cached(Vec<u8>),
    /// Await the load already in flight for this index.
    Join,
    /// Load the chunk, then report the outcome with `CacheShard::finish`.
    Load,
}

impl Lookup {
    pub open spec fn kind(&self) -> LookupKind {
        match self {
            Lookup::Cached(_) => LookupKind::Hit,
            Lookup::Join => LookupKind::Join,
            Lookup::Load => LookupKind::Load,
        }
    }
}

/// One shard of the cache: completed payloads under LRU, and the indices
/// whose loads are in flight. Failed loads are never kept.
pub struct CacheShard {
    cache: LruMap,
    loads: Vec<u64>,
}

impl CacheShard {
    /// Cached entries, least recently used first.
    pub closed spec fn entries(&self) -> Seq<(u64, Seq<u8>)> {
        lru_entries(self.cache)
    }

    pub closed spec fn capacity(&self) -> nat {
        lru_capacity(self.cache)
    }

    /// Indices with a load in flight.
    pub closed spec fn loading(&self) -> Set<u64> {
        Set::new(|x: u64| self.loads@.contains(x))
    }

    /// An empty shard that caches `cache_shard_size` payloads at most.
    pub fn new(cache_shard_size: usize) -> (r: CacheShard)
        requires
            cache_shard_size > 0,
        ensures
            r.entries() == Seq::<(u64, Seq<u8>)>::empty(),
            r.capacity() == cache_shard_size,
            r.loading() == Set::<u64>::empty(),
    {
        let r = CacheShard { cache: lru_new(cache_shard_size), loads: Vec::new() };
        assert(r.loading() =~= Set::<u64>::empty());
        r
    }

    fn is_loading(&self, idx: u64) -> (r: bool)
        ensures
            r == self.loading().contains(idx),
    {
        let mut i: usize = 0;
        while i < self.loads.len()
            invariant
                i <= self.loads@.len(),
                forall|j: int| 0 <= j < i ==> self.loads@[j] != idx,
            decreases self.loads@.len() - i,
        {
            if self.loads[i] == idx {
                assert(self.loads@.contains(idx));
                return true;
            }
            i = i + 1;
        }
        false
    }

    /// Decides a request for `idx`: a cached payload is returned (and becomes
    /// the most recent entry); else a load in flight is joined; else the
    /// index is marked as loading and the caller must load it.
    pub fn get(&mut self, idx: PageIndex) -> (r: Lookup)
        ensures
            r.kind() == decide(old(self).entries(), old(self).loading(), idx),
            final(self).capacity() == old(self).capacity(),
            r matches Lookup::Cached(v) ==> {
                &&& lookup(old(self).entries(), idx) == Some(v@)
                &&& final(self).entries() == lru_touch(old(self).entries(), idx)
                &&& final(self).loading() == old(self).loading()
            },
            r is Join ==> final(self).entries() == old(self).entries() && final(self).loading()
                == old(self).loading(),
            r is Load ==> final(self).entries() == old(self).entries() && final(self).loading()
                == old(self).loading().insert(idx),
    {
        match lru_get(&mut self.cache, idx) {
            Some(v) => Lookup::Cached(v),
            None => {
                if self.is_loading(idx) {
                    Lookup::Join
                } else {
                    let ghost before = self.loads@;
                    self.loads.push(idx);
                    assert(self.loading() =~= old(self).loading().insert(idx)) by {
                        assert forall|x: u64| self.loads@.contains(x) <==> (before.contains(x) || x == idx) by {
                            if before.contains(x) {
                                let j = choose|j: int| 0 <= j < before.len() && before[j] == x;
                                assert(self.loads@[j] == x);
                            }
                            if self.loads@.contains(x) {
                                let j = choose|j: int| 0 <= j < self.loads@.len() && self.loads@[j] == x;
                                if j < before.len() {
                                    assert(before[j] == x);
                                }
                            }
                            assert(self.loads@[before.len() as int] == idx);
                        }
                    }
                    Lookup::Load
                }
            },
        }
    }

    /// Reports the outcome of the load of `idx`: it is no longer in flight,
    /// and a payload that arrived is cached (evicting the least recent entry
    /// when the shard is full). A failure is not cached, so the next request
    /// loads afresh.
    pub fn finish(&mut self, idx: PageIndex, result: &Result<Vec<u8>, RetrieveError>)
        ensures
            final(self).capacity() == old(self).capacity(),
            final(self).loading() == old(self).loading().remove(idx),
            *result matches Ok(v) ==> final(self).entries() == lru_insert(
                old(self).entries(),
                old(self).capacity(),
                idx,
                v@,
            ),
            result is Err ==> final(self).entries() == old(self).entries(),
    {
        let mut kept: Vec<u64> = Vec::new();
        let mut i: usize = 0;
        while i < self.loads.len()
            invariant
                i <= self.loads@.len(),
                forall|x: u64| kept@.contains(x) <==> (x != idx && self.loads@.subrange(0, i as int).contains(x)),
            decreases self.loads@.len() - i,
        {
            let x = self.loads[i];
            let ghost prev = kept@;
            if x != idx {
                kept.push(x);
            }
            assert forall|y: u64| kept@.contains(y) <==> (y != idx && self.loads@.subrange(0, i + 1).contains(y)) by {
                let a = self.loads@.subrange(0, i as int);
                let b = self.loads@.subrange(0, i + 1);
                assert(b =~= a.push(x));
                assert(prev.contains(y) <==> (y != idx && a.contains(y)));
                assert(b[a.len() as int] == x);
                if x != idx {
                    assert(kept@ =~= prev.push(x));
                } else {
                    assert(kept@ =~= prev);
                }
                if a.contains(y) {
                    let j = choose|j: int| 0 <= j < a.len() && a[j] == y;
                    assert(b[j] == y);
                }
                if b.contains(y) {
                    let j = choose|j: int| 0 <= j < b.len() && b[j] == y;
                    if j < a.len() {
                        assert(a[j] == y);
                    }
                }
                if kept@.contains(y) {
                    let j = choose|j: int| 0 <= j < kept@.len() && kept@[j] == y;
                    if j < prev.len() {
                        assert(prev[j] == y);
                    }
                }
                if prev.contains(y) {
                    let j = choose|j: int| 0 <= j < prev.len() && prev[j] == y;
                    assert(kept@[j] == y);
                }
                if x != idx {
                    assert(kept@[prev.len() as int] == x);
                }
            }
            i = i + 1;
        }
        assert(self.loads@.subrange(0, i as int) =~= self.loads@);
        let ghost old_loads = self.loads@;
        self.loads = kept;
        assert(self.loading() =~= old(self).loading().remove(idx));
        if let Ok(v) = result {
            let copy = slice_to_vec(v.as_slice(), 0, v.len());
            assert(copy@ =~= v@);
            lru_put(&mut self.cache, idx, copy);
        }
    }
}

/// The shard that serves page index `idx`.
pub fn shard_of(idx: PageIndex) -> (r: usize)
    ensures
        r == idx % (CACHE_SHARDS as u64),
        r < CACHE_SHARDS,
{
    (idx % 64) as usize
}

/// Single-flight: once a request for an uncached index has started a load,
/// every further request for it, until the load is reported, joins that
/// load instead of starting another.
pub proof fn lemma_single_flight(entries: Seq<(u64, Seq<u8>)>, loading: Set<u64>, idx: u64)
    requires
        decide(entries, loading, idx) == LookupKind::Load,
    ensures
        decide(entries, loading.insert(idx), idx) == LookupKind::Join,
{
}

/// A failed load is not replayed: once it is reported, the next request for
/// the same index starts a fresh load.
pub proof fn lemma_failure_not_kept(entries: Seq<(u64, Seq<u8>)>, loading: Set<u64>, idx: u64)
    requires
        decide(entries, loading, idx) == LookupKind::Join,
    ensures
        decide(entries, loading.remove(idx), idx) == LookupKind::Load,
{
}

/// Storing a new key in a full shard evicts the least recently used entry
/// and nothing else; the new key becomes the most recent.
pub proof fn lemma_lru_eviction(s: Seq<(u64, Seq<u8>)>, cap: nat, k: u64, v: Seq<u8>)
    requires
        unique_keys(s),
        s.len() == cap,
        cap > 0,
        lookup(s, k) is None,
    ensures
        lru_insert(s, cap, k, v) == s.drop_first().push((k, v)),
        lookup(lru_insert(s, cap, k, v), s[0].0) is None,
        lookup(lru_insert(s, cap, k, v), k) == Some(v),
        lru_insert(s, cap, k, v).len() == cap,
{
    let r = lru_insert(s, cap, k, v);
    lemma_lookup_none_absent(s, k);
    assert(r.drop_last() =~= s.drop_first());
    assert forall|i: int| 0 <= i < s.drop_first().len() implies s.drop_first()[i].0 != s[0].0 by {
        assert(s.drop_first()[i] == s[i + 1]);
    }
    lemma_lookup_absent(s.drop_first(), s[0].0);
}

/// A lookup that finds its key makes that entry the most recent, keeping
/// its value.
pub proof fn lemma_access_refreshes(s: Seq<(u64, Seq<u8>)>, k: u64)
    requires
        lookup(s, k) is Some,
    ensures
        lru_touch(s, k).last() == (k, lookup(s, k)->0),
        lookup(lru_touch(s, k), k) == lookup(s, k),
{
}

} // verus!
