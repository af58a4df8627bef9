//! Which decoded files the playback cache keeps: a least-recently-used index
//! from asset id to the slot holding its samples, kept in an `lru::LruCache`.

use vstd::prelude::*;

use lru::LruCache;

verus! {

// ---------------------------------------------------------------------------
// The outside cache
// ---------------------------------------------------------------------------

#[verifier::external_type_specification]
#[verifier::external_body]
#[verifier::reject_recursive_types(K)]
#[verifier::reject_recursive_types(V)]
#[verifier::reject_recursive_types(S)]
pub struct ExLruCache<K, V, S>(LruCache<K, V, S>);

#[verifier::external_type_specification]
#[verifier::external_body]
pub struct ExLruDefaultHasher(lru::DefaultHasher);

/// The entries of an `LruCache`, most recently used first.
pub uninterp spec fn lru_entries(c: LruCache<i64, u64>) -> Seq<(i64, u64)>;

/// The capacity an `LruCache` was made with.
pub uninterp spec fn lru_capacity(c: LruCache<i64, u64>) -> nat;

/// Whether no key occurs twice among `e`.
pub open spec fn keys_distinct(e: Seq<(i64, u64)>) -> bool {
    forall|i: int, j: int| 0 <= i < j < e.len() ==> #[trigger] e[i].0 != #[trigger] e[j].0
}

/// The position of key `k` in `e`, if it is there.
pub open spec fn key_index(e: Seq<(i64, u64)>, k: i64) -> Option<int> {
    if exists|i: int| 0 <= i < e.len() && e[i].0 == k {
        Some(choose|i: int| 0 <= i < e.len() && e[i].0 == k)
    } else {
        None
    }
}

/// The entries after a lookup of `k`: a present key moves to the front.
pub open spec fn touch(e: Seq<(i64, u64)>, k: i64) -> Seq<(i64, u64)> {
    match key_index(e, k) {
        Some(i) => seq![e[i]] + e.remove(i),
        None => e,
    }
}

/// The entries after pushing `(k, v)` into a cache of capacity `cap`: a
/// present key is updated and moved to the front; otherwise the new entry
/// goes to the front, the least recently used one dropped when full.
pub open spec fn pushed(e: Seq<(i64, u64)>, k: i64, v: u64, cap: nat) -> Seq<(i64, u64)> {
    match key_index(e, k) {
        Some(i) => seq![(k, v)] + e.remove(i),
        None => if e.len() >= cap {
            seq![(k, v)] + e.drop_last()
        } else {
            seq![(k, v)] + e
        },
    }
}

/// What a push hands back: the entry it replaced or evicted, if any.
pub open spec fn push_result(e: Seq<(i64, u64)>, k: i64, cap: nat) -> Option<(i64, u64)> {
    match key_index(e, k) {
        Some(i) => Some(e[i]),
        None => if e.len() >= cap && e.len() > 0 {
            Some(e.last())
        } else {
            None
        },
    }
}

/// `LruCache::new` with capacity `cap` (at least one): an empty cache.
#[verifier::external_body]
fn lru_new(cap: usize) -> (r: LruCache<i64, u64>)
    requires
        cap >= 1,
    ensures
        lru_entries(r) == Seq::<(i64, u64)>::empty(),
        lru_capacity(r) == cap,
{
    LruCache::new(std::num::NonZeroUsize::new(cap).unwrap())
}

/// `LruCache::get`: the value of `k`, if present, which then becomes the
/// most recently used entry; the entries otherwise keep their order.
#[verifier::external_body]
fn lru_get(c: &mut LruCache<i64, u64>, k: i64) -> (r: Option<u64>)
    ensures
        r == (match key_index(lru_entries(*old(c)), k) {
            Some(i) => Some(lru_entries(*old(c))[i].1),
            None => None,
        }),
        lru_entries(*final(c)) == touch(lru_entries(*old(c)), k),
        lru_capacity(*final(c)) == lru_capacity(*old(c)),
{
    c.get(&k).copied()
}

/// `LruCache::push`: stores `(k, v)` as the most recently used entry and
/// hands back the entry of the same key it replaced, or else the least
/// recently used entry it evicted because the cache was full.
#[verifier::external_body]
fn lru_push(c: &mut LruCache<i64, u64>, k: i64, v: u64) -> (r: Option<(i64, u64)>)
    ensures
        lru_entries(*final(c)) == pushed(lru_entries(*old(c)), k, v, lru_capacity(*old(c))),
        r == push_result(lru_entries(*old(c)), k, lru_capacity(*old(c))),
        lru_capacity(*final(c)) == lru_capacity(*old(c)),
{
    c.push(k, v)
}

/// `LruCache::len`: the number of entries.
#[verifier::external_body]
fn lru_len(c: &LruCache<i64, u64>) -> (r: usize)
    ensures
        r == lru_entries(*c).len(),
{
    c.len()
}

/// `LruCache::clear`: removes every entry, keeping the capacity.
#[verifier::external_body]
fn lru_clear(c: &mut LruCache<i64, u64>)
    ensures
        lru_entries(*final(c)) == Seq::<(i64, u64)>::empty(),
        lru_capacity(*final(c)) == lru_capacity(*old(c)),
{
    c.clear()
}

// ---------------------------------------------------------------------------
// The index
// ---------------------------------------------------------------------------

proof fn lemma_key_index(e: Seq<(i64, u64)>, k: i64)
    ensures
        key_index(e, k) matches Some(i) ==> 0 <= i < e.len() && e[i].0 == k,
        key_index(e, k) is None ==> forall|j: int| 0 <= j < e.len() ==> e[j].0 != k,
{
}

/// Pushing keeps keys distinct and the entry count within the capacity.
proof fn lemma_pushed_wf(e: Seq<(i64, u64)>, k: i64, v: u64, cap: nat)
    requires
        keys_distinct(e),
        e.len() <= cap,
        cap >= 1,
    ensures
        keys_distinct(pushed(e, k, v, cap)),
        pushed(e, k, v, cap).len() <= cap,
{
    lemma_key_index(e, k);
    let r = pushed(e, k, v, cap);
    match key_index(e, k) {
        Some(i) => {
            let rest = e.remove(i);
            assert forall|a: int, b: int| 0 <= a < b < r.len() implies #[trigger] r[a].0
                != #[trigger] r[b].0 by {
                let ib = if b - 1 < i { b - 1 } else { b };
                assert(r[b] == rest[b - 1]);
                assert(rest[b - 1] == e[ib]);
                if a > 0 {
                    let ia = if a - 1 < i { a - 1 } else { a };
                    assert(r[a] == rest[a - 1]);
                    assert(rest[a - 1] == e[ia]);
                }
            }
        },
        None => {
            let rest = if e.len() >= cap { e.drop_last() } else { e };
            assert forall|a: int, b: int| 0 <= a < b < r.len() implies #[trigger] r[a].0
                != #[trigger] r[b].0 by {
                assert(r[b] == rest[b - 1]);
                assert(rest[b - 1] == e[b - 1]);
                if a > 0 {
                    assert(r[a] == rest[a - 1]);
                    assert(rest[a - 1] == e[a - 1]);
                }
            }
        },
    }
}

/// Lookups keep keys distinct and the entries the same.
proof fn lemma_touch_wf(e: Seq<(i64, u64)>, k: i64)
    requires
        keys_distinct(e),
    ensures
        keys_distinct(touch(e, k)),
        touch(e, k).len() == e.len(),
{
    lemma_key_index(e, k);
    if let Some(i) = key_index(e, k) {
        let rest = e.remove(i);
        let r = touch(e, k);
        assert forall|a: int, b: int| 0 <= a < b < r.len() implies #[trigger] r[a].0
            != #[trigger] r[b].0 by {
            let ib = if b - 1 < i { b - 1 } else { b };
            assert(r[b] == rest[b - 1]);
            assert(rest[b - 1] == e[ib]);
            if a > 0 {
                let ia = if a - 1 < i { a - 1 } else { a };
                assert(r[a] == rest[a - 1]);
                assert(rest[a - 1] == e[ia]);
            }
        }
    }
}

/// Least-recently-used index from asset id to sample slot.
pub struct RecencyIndex {
    cache: LruCache<i64, u64>,
}

impl RecencyIndex {
    /// The entries, most recently used first.
    pub closed spec fn entries(&self) -> Seq<(i64, u64)> {
        lru_entries(self.cache)
    }

    /// The most entries the index holds.
    pub closed spec fn capacity(&self) -> nat {
        lru_capacity(self.cache)
    }

    /// Keys are distinct and never more than the capacity.
    pub open spec fn wf(&self) -> bool {
        &&& keys_distinct(self.entries())
        &&& self.entries().len() <= self.capacity()
        &&& self.capacity() >= 1
    }

    /// An empty index holding at most `capacity` entries (at least one).
    pub fn new(capacity: usize) -> (r: Self)
        ensures
            r.wf(),
            r.entries() == Seq::<(i64, u64)>::empty(),
            r.capacity() == if capacity >= 1 { capacity as nat } else { 1 },
    {
        let cap = if capacity >= 1 {
            capacity
        } else {
            1
        };
        RecencyIndex { cache: lru_new(cap) }
    }

    /// The slot of `asset_id`, if indexed; a hit becomes the most recently
    /// used entry.
    pub fn get(&mut self, asset_id: i64) -> (r: Option<u64>)
        requires
            old(self).wf(),
        ensures
            final(self).wf(),
            r == (match key_index(old(self).entries(), asset_id) {
                Some(i) => Some(old(self).entries()[i].1),
                None => None,
            }),
            final(self).entries() == touch(old(self).entries(), asset_id),
            final(self).capacity() == old(self).capacity(),
    {
        let r = lru_get(&mut self.cache, asset_id);
        proof {
            lemma_touch_wf(old(self).entries(), asset_id);
        }
        r
    }

    /// Records `asset_id` in `slot` as the most recently used entry; gives
    /// back the entry it replaced (same asset) or evicted (index full).
    pub fn insert(&mut self, asset_id: i64, slot: u64) -> (r: Option<(i64, u64)>)
        requires
            old(self).wf(),
        ensures
            final(self).wf(),
            final(self).entries() == pushed(old(self).entries(), asset_id, slot, old(self).capacity()),
            r == push_result(old(self).entries(), asset_id, old(self).capacity()),
            final(self).capacity() == old(self).capacity(),
    {
        let r = lru_push(&mut self.cache, asset_id, slot);
        proof {
            lemma_pushed_wf(old(self).entries(), asset_id, slot, old(self).capacity());
        }
        r
    }

    /// The number of entries.
    pub fn len(&self) -> (r: usize)
        ensures
            r == self.entries().len(),
    {
        lru_len(&self.cache)
    }

    /// Forgets every entry.
    pub fn clear(&mut self)
        requires
            old(self).wf(),
        ensures
            final(self).wf(),
            final(self).entries() == Seq::<(i64, u64)>::empty(),
            final(self).capacity() == old(self).capacity(),
    {
        lru_clear(&mut self.cache)
    }
}

// ---------------------------------------------------------------------------
// Laws
// ---------------------------------------------------------------------------

/// Law: right after an insert, the entry is the most recently used one and a
/// lookup finds its slot.
pub proof fn law_insert_then_get(e: Seq<(i64, u64)>, k: i64, v: u64, cap: nat)
    requires
        keys_distinct(e),
        e.len() <= cap,
        cap >= 1,
    ensures
        pushed(e, k, v, cap)[0] == (k, v),
        key_index(pushed(e, k, v, cap), k) == Some(0int),
{
    lemma_pushed_wf(e, k, v, cap);
    let r = pushed(e, k, v, cap);
    assert(r[0] == (k, v));
    lemma_key_index(r, k);
    if let Some(i) = key_index(r, k) {
        if i != 0 {
            assert(r[0].0 == r[i].0);
        }
    }
}

/// Law: inserting a new key into a full index evicts exactly the least
/// recently used entry.
pub proof fn law_full_insert_evicts_oldest(e: Seq<(i64, u64)>, k: i64, v: u64, cap: nat)
    requires
        keys_distinct(e),
        e.len() == cap,
        cap >= 1,
        forall|j: int| 0 <= j < e.len() ==> e[j].0 != k,
    ensures
        push_result(e, k, cap) == Some(e.last()),
        pushed(e, k, v, cap) == seq![(k, v)] + e.drop_last(),
{
    lemma_key_index(e, k);
    if key_index(e, k) is Some {
        let i = key_index(e, k)->0;
        assert(e[i].0 == k);
    }
}

/// Law: a lookup moves a present entry to the front and keeps the others in
/// their order.
pub proof fn law_get_moves_to_front(e: Seq<(i64, u64)>, i: int)
    requires
        keys_distinct(e),
        0 <= i < e.len(),
    ensures
        touch(e, e[i].0) == seq![e[i]] + e.remove(i),
{
    lemma_key_index(e, e[i].0);
    let j = key_index(e, e[i].0)->0;
    if j != i {
        if j < i {
            assert(e[j].0 != e[i].0);
        } else {
            assert(e[i].0 != e[j].0);
        }
    }
}

} // verus!
