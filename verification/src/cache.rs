//! The head-block-keyed response cache.
//!
//! A bounded mapping from (head block, method, canonical params) to the
//! raw JSON text of a backend's result, kept in insertion order: when the
//! cache outgrows its capacity the oldest entry is dropped. Because the
//! key embeds the head block, a new block naturally starts with an empty
//! working set. The map itself is `linked_hash_map::LinkedHashMap`; its
//! behaviour is taken on trust from that crate's source, named below by
//! `lhm_entries`, and everything around it is verified.

use linked_hash_map::LinkedHashMap;
use vstd::prelude::*;

verus! {

/// What a response is cached under: head block, method, and the canonical
/// text of the params (absent when the request carried none).
pub type CacheKey = (u64, String, Option<String>);

/// A cache key in specification form.
pub type CacheKeyView = (u64, Seq<char>, Option<Seq<char>>);

/// The specification form of a key.
pub open spec fn key_view(k: CacheKey) -> CacheKeyView {
    (
        k.0,
        k.1@,
        match k.2 {
            Some(p) => Some(p@),
            None => None,
        },
    )
}

#[verifier::external_type_specification]
#[verifier::external_body]
#[verifier::reject_recursive_types(K)]
#[verifier::reject_recursive_types(V)]
#[verifier::reject_recursive_types(S)]
pub struct ExLinkedHashMap<K, V, S>(LinkedHashMap<K, V, S>);

/// What the map holds, oldest entry first.
pub uninterp spec fn lhm_entries(m: LinkedHashMap<(u64, String, Option<String>), String>) -> Seq<
    (CacheKeyView, Seq<char>),
>;

/// The value stored under a key, if any entry holds it.
pub open spec fn lookup_entry(s: Seq<(CacheKeyView, Seq<char>)>, k: CacheKeyView) -> Option<
    Seq<char>,
>
    decreases s.len(),
{
    if s.len() == 0 {
        None
    } else if s.last().0 == k {
        Some(s.last().1)
    } else {
        lookup_entry(s.drop_last(), k)
    }
}

/// The entries with any entry for `k` taken out, order kept.
pub open spec fn remove_entry(s: Seq<(CacheKeyView, Seq<char>)>, k: CacheKeyView) -> Seq<
    (CacheKeyView, Seq<char>),
>
    decreases s.len(),
{
    if s.len() == 0 {
        s
    } else if s.last().0 == k {
        remove_entry(s.drop_last(), k)
    } else {
        remove_entry(s.drop_last(), k).push(s.last())
    }
}

/// Entry keys appear at most once.
pub open spec fn unique_entry_keys(s: Seq<(CacheKeyView, Seq<char>)>) -> bool {
    forall|i: int, j: int| 0 <= i < j < s.len() ==> (#[trigger] s[i]).0 != (#[trigger] s[j]).0
}

/// Some entry holds the key.
pub open spec fn has_entry_key(s: Seq<(CacheKeyView, Seq<char>)>, k: CacheKeyView) -> bool {
    exists|i: int| 0 <= i < s.len() && (#[trigger] s[i]).0 == k
}

/// Relies on `LinkedHashMap::new`: a fresh map is empty.
#[verifier::external_body]
fn lhm_new() -> (m: LinkedHashMap<CacheKey, String>)
    ensures
        lhm_entries(m) == Seq::<(CacheKeyView, Seq<char>)>::empty(),
{
    LinkedHashMap::new()
}

/// Relies on `LinkedHashMap::len`: the number of entries held.
#[verifier::external_body]
fn lhm_len(m: &LinkedHashMap<CacheKey, String>) -> (n: usize)
    ensures
        n == lhm_entries(*m).len(),
{
    m.len()
}

/// Relies on `LinkedHashMap::get`: the value stored under an equal key,
/// or nothing when no entry holds the key.
#[verifier::external_body]
fn lhm_get<'a>(m: &'a LinkedHashMap<CacheKey, String>, k: &CacheKey) -> (r: Option<&'a String>)
    ensures
        match r {
            Some(v) => Some(v@),
            None => None,
        } == lookup_entry(lhm_entries(*m), key_view(*k)),
{
    m.get(k)
}

/// Relies on `LinkedHashMap::insert`: a present key's value is replaced
/// and its entry moves to the back, a fresh key is appended at the back,
/// and the prior value, if any, is returned.
#[verifier::external_body]
fn lhm_insert(m: &mut LinkedHashMap<CacheKey, String>, k: CacheKey, v: String) -> (old_v: Option<
    String,
>)
    ensures
        lhm_entries(*final (m)) == remove_entry(lhm_entries(*old(m)), key_view(k)).push(
            (key_view(k), v@),
        ),
        match old_v {
            Some(x) => Some(x@),
            None => None,
        } == lookup_entry(lhm_entries(*old(m)), key_view(k)),
{
    m.insert(k, v)
}

/// Relies on `LinkedHashMap::pop_front`: removes and returns the oldest
/// entry; an empty map is left alone.
#[verifier::external_body]
fn lhm_pop_front(m: &mut LinkedHashMap<CacheKey, String>) -> (r: Option<(CacheKey, String)>)
    ensures
        lhm_entries(*old(m)).len() == 0 ==> r is None && lhm_entries(*final (m)) == lhm_entries(
            *old(m),
        ),
        lhm_entries(*old(m)).len() > 0 ==> match r {
            Some(p) => (key_view(p.0), p.1@) == lhm_entries(*old(m))[0] && lhm_entries(
                *final (m),
            ) == lhm_entries(*old(m)).drop_first(),
            None => false,
        },
{
    m.pop_front()
}

/// Taking a key out leaves no entry for it, keeps every other key that was
/// absent absent, and keeps unique keys unique.
proof fn lemma_remove_entry(s: Seq<(CacheKeyView, Seq<char>)>, k: CacheKeyView)
    ensures
        forall|j: int|
            0 <= j < remove_entry(s, k).len() ==> (#[trigger] remove_entry(s, k)[j]).0 != k,
        forall|k2: CacheKeyView| has_entry_key(remove_entry(s, k), k2) ==> has_entry_key(s, k2),
        unique_entry_keys(s) ==> unique_entry_keys(remove_entry(s, k)),
        remove_entry(s, k).len() <= s.len(),
    decreases s.len(),
{
    if s.len() > 0 {
        lemma_remove_entry(s.drop_last(), k);
        assert(forall|k2: CacheKeyView|
            has_entry_key(s.drop_last(), k2) ==> has_entry_key(s, k2)) by {
            assert(forall|j: int|
                0 <= j < s.len() - 1 ==> (#[trigger] s.drop_last()[j]) == s[j]);
        }
        if s.last().0 != k {
            let r = remove_entry(s.drop_last(), k).push(s.last());
            if unique_entry_keys(s) {
                assert(unique_entry_keys(s.drop_last())) by {
                    assert(forall|j: int|
                        0 <= j < s.len() - 1 ==> (#[trigger] s.drop_last()[j]) == s[j]);
                }
                assert forall|i: int, j: int| 0 <= i < j < r.len() implies (#[trigger] r[i]).0 != (
                #[trigger] r[j]).0 by {
                    if j == r.len() - 1 {
                        assert(r[i] == remove_entry(s.drop_last(), k)[i]);
                        if r[i].0 == s.last().0 {
                            assert(has_entry_key(remove_entry(s.drop_last(), k), s.last().0));
                            assert(has_entry_key(s.drop_last(), s.last().0));
                            let w = choose|w: int|
                                0 <= w < s.drop_last().len() && (#[trigger] s.drop_last()[w]).0
                                    == s.last().0;
                            assert(s[w] == s.drop_last()[w]);
                            assert(s[w].0 == s[s.len() - 1].0);
                        }
                    } else {
                        assert(r[i] == remove_entry(s.drop_last(), k)[i]);
                        assert(r[j] == remove_entry(s.drop_last(), k)[j]);
                    }
                }
            }
            assert forall|k2: CacheKeyView| has_entry_key(r, k2) implies has_entry_key(
                s,
                k2,
            ) by {
                let w = choose|w: int| 0 <= w < r.len() && (#[trigger] r[w]).0 == k2;
                if w == r.len() - 1 {
                    assert(s[s.len() - 1].0 == k2);
                } else {
                    assert(remove_entry(s.drop_last(), k)[w].0 == k2);
                    assert(has_entry_key(remove_entry(s.drop_last(), k), k2));
                }
            }
        }
    }
}

/// Cache reads are idempotent: a read is a function of the cached entries
/// and the key alone, so two reads of one key with no intervening write or
/// eviction return the same answer.
pub proof fn lemma_get_idempotent(
    entries: Seq<(CacheKeyView, Seq<char>)>,
    k: CacheKeyView,
    r1: Option<Seq<char>>,
    r2: Option<Seq<char>>,
)
    requires
        r1 == lookup_entry(entries, k),
        r2 == lookup_entry(entries, k),
    ensures
        r1 == r2,
{
}

/// A bounded key-to-response mapping in insertion order: the response
/// cache in front of the backends. An entry is only ever a speed-up; the
/// store is bounded by `capacity` and evicts its oldest entry on
/// overflow.
pub struct ResponseCache {
    map: LinkedHashMap<CacheKey, String>,
    capacity: usize,
}

/// The entries after an insert: any entry under the key is replaced and
/// moved to the back, and if the cache then exceeds its capacity the
/// oldest entry is dropped.
pub open spec fn spec_cache_insert(
    s: Seq<(CacheKeyView, Seq<char>)>,
    capacity: usize,
    k: CacheKeyView,
    v: Seq<char>,
) -> Seq<(CacheKeyView, Seq<char>)> {
    let s1 = remove_entry(s, k).push((k, v));
    if s1.len() > capacity {
        s1.drop_first()
    } else {
        s1
    }
}

impl ResponseCache {
    /// The cached entries, oldest first.
    pub closed spec fn entries(&self) -> Seq<(CacheKeyView, Seq<char>)> {
        lhm_entries(self.map)
    }

    pub closed spec fn spec_capacity(&self) -> usize {
        self.capacity
    }

    /// Structural invariant: unique keys, within capacity.
    pub closed spec fn wf(&self) -> bool {
        &&& self.capacity >= 1
        &&& unique_entry_keys(self.entries())
        &&& self.entries().len() <= self.capacity
    }

    /// An empty cache bounded by `capacity` entries.
    pub fn new(capacity: usize) -> (r: Self)
        requires
            capacity >= 1,
        ensures
            r.wf(),
            r.entries() == Seq::<(CacheKeyView, Seq<char>)>::empty(),
            r.spec_capacity() == capacity,
    {
        ResponseCache { map: lhm_new(), capacity }
    }

    pub fn len(&self) -> (n: usize)
        ensures
            n == self.entries().len(),
    {
        lhm_len(&self.map)
    }

    /// Read the entry under a key. The result is a function of the cached
    /// entries and the key alone, so reads are idempotent: two reads with
    /// no intervening write return the same answer.
    pub fn get<'a>(&'a self, k: &CacheKey) -> (r: Option<&'a String>)
        ensures
            match r {
                Some(v) => Some(v@),
                None => None,
            } == lookup_entry(self.entries(), key_view(*k)),
    {
        lhm_get(&self.map, k)
    }

    /// Store a response, evicting the oldest entry if the cache would
    /// exceed its capacity.
    pub fn insert(&mut self, k: CacheKey, v: String)
        requires
            old(self).wf(),
        ensures
            final (self).wf(),
            final (self).spec_capacity() == old(self).spec_capacity(),
            final (self).entries() == spec_cache_insert(
                old(self).entries(),
                old(self).spec_capacity(),
                key_view(k),
                v@,
            ),
    {
        proof {
            lemma_remove_entry(self.entries(), key_view(k));
        }
        let ghost k0 = key_view(k);
        let ghost s0 = self.entries();
        let _ = lhm_insert(&mut self.map, k, v);
        proof {
            let s1 = lhm_entries(self.map);
            assert(unique_entry_keys(s1)) by {
                let base = remove_entry(s0, k0);
                assert(forall|j: int| 0 <= j < base.len() ==> (#[trigger] s1[j]) == base[j]);
                assert(s1[s1.len() - 1].0 == k0);
            }
        }
        if lhm_len(&self.map) > self.capacity {
            let _ = lhm_pop_front(&mut self.map);
            proof {
                let s1 = remove_entry(s0, k0).push((k0, v@));
                assert(forall|j: int|
                    0 <= j < s1.len() - 1 ==> (#[trigger] s1.drop_first()[j]) == s1[j + 1]);
            }
        }
    }
}

} // verus!
