//! A global least-recently-used cache over a fixed pool of slots, keyed by
//! layer and expert. Recency is kept by the `lru` crate; this type makes room
//! itself before it inserts, so that the freed slot goes to the new key.

use lru::LruCache;
use std::num::NonZeroUsize;
use vstd::prelude::*;

verus! {

/// One expert's identity across every layer: the layer and the expert.
pub type ExpertKey = (u32, u32);

/// The `lru` crate's cache type.
#[verifier::external_type_specification]
#[verifier::external_body]
#[verifier::reject_recursive_types(K)]
#[verifier::reject_recursive_types(V)]
#[verifier::reject_recursive_types(S)]
pub struct ExLruCache<K, V, S>(LruCache<K, V, S>);

/// The hasher an `LruCache` uses unless told otherwise.
#[verifier::external_type_specification]
#[verifier::external_body]
pub struct ExLruHasher(lru::DefaultHasher);

/// What an `LruCache` holds, most recently used first.
pub uninterp spec fn lru_entries(cache: LruCache<(u32, u32), usize>) -> Seq<((u32, u32), usize)>;

/// The number of entries an `LruCache` was made for.
pub uninterp spec fn lru_limit(cache: LruCache<(u32, u32), usize>) -> nat;

/// The entry at `i` has moved to the front.
pub open spec fn promoted(s: Seq<(ExpertKey, usize)>, i: int) -> Seq<(ExpertKey, usize)> {
    seq![s[i]] + s.remove(i)
}

/// No entry has this key.
pub open spec fn absent(s: Seq<(ExpertKey, usize)>, key: ExpertKey) -> bool {
    forall|i: int| 0 <= i < s.len() ==> (#[trigger] s[i]).0 != key
}

/// The entry at `i` has this key.
pub open spec fn present_at(s: Seq<(ExpertKey, usize)>, key: ExpertKey, i: int) -> bool {
    0 <= i < s.len() && s[i].0 == key
}

/// Calls `LruCache::new`: an empty cache of the given capacity. It sets up a
/// hash table for that many entries at once, and a table too large to be laid
/// out makes it panic, which the upper bound rules out.
#[verifier::external_body]
fn lru_new(capacity: usize) -> (cache: LruCache<(u32, u32), usize>)
    requires
        1 <= capacity <= usize::MAX / 256,
    ensures
        lru_entries(cache) == Seq::<((u32, u32), usize)>::empty(),
        lru_limit(cache) == capacity,
{
    LruCache::new(NonZeroUsize::new(capacity).expect("capacity is positive"))
}

/// Calls `LruCache::get`: the value under a key, whose entry moves to the
/// front; an absent key changes nothing.
#[verifier::external_body]
fn lru_get(cache: &mut LruCache<(u32, u32), usize>, key: (u32, u32)) -> (value: Option<usize>)
    ensures
        lru_limit(*final(cache)) == lru_limit(*old(cache)),
        absent(lru_entries(*old(cache)), key) ==> value is None && lru_entries(*final(cache))
            == lru_entries(*old(cache)),
        forall|i: int| #[trigger]
            present_at(lru_entries(*old(cache)), key, i) ==> value == Some(
                lru_entries(*old(cache))[i].1,
            ) && lru_entries(*final(cache)) == promoted(lru_entries(*old(cache)), i),
{
    cache.get(&key).copied()
}

/// Calls `LruCache::pop_lru`: takes the last entry out; an empty cache stays
/// as it is.
#[verifier::external_body]
fn lru_pop(cache: &mut LruCache<(u32, u32), usize>) -> (entry: Option<((u32, u32), usize)>)
    ensures
        lru_limit(*final(cache)) == lru_limit(*old(cache)),
        lru_entries(*old(cache)).len() == 0 ==> entry is None && lru_entries(*final(cache))
            == lru_entries(*old(cache)),
        lru_entries(*old(cache)).len() > 0 ==> entry == Some(lru_entries(*old(cache)).last())
            && lru_entries(*final(cache)) == lru_entries(*old(cache)).drop_last(),
{
    cache.pop_lru()
}

/// Calls `LruCache::put`: a key that is present gets the new value and moves
/// to the front; a new key goes to the front, and pushes the last entry out
/// of a full cache.
#[verifier::external_body]
fn lru_put(cache: &mut LruCache<(u32, u32), usize>, key: (u32, u32), value: usize) -> (replaced:
    Option<usize>)
    ensures
        lru_limit(*final(cache)) == lru_limit(*old(cache)),
        absent(lru_entries(*old(cache)), key) ==> replaced is None && lru_entries(*final(cache))
            == seq![(key, value)] + (if lru_entries(*old(cache)).len() == lru_limit(*old(cache)) {
            lru_entries(*old(cache)).drop_last()
        } else {
            lru_entries(*old(cache))
        }),
        forall|i: int| #[trigger]
            present_at(lru_entries(*old(cache)), key, i) ==> replaced == Some(
                lru_entries(*old(cache))[i].1,
            ) && lru_entries(*final(cache)) == seq![(key, value)] + lru_entries(*old(cache)).remove(
                i,
            ),
{
    cache.put(key, value)
}

/// Calls `LruCache::clear`: takes every entry out.
#[verifier::external_body]
fn lru_clear(cache: &mut LruCache<(u32, u32), usize>)
    ensures
        lru_limit(*final(cache)) == lru_limit(*old(cache)),
        lru_entries(*final(cache)) == Seq::<((u32, u32), usize)>::empty(),
{
    cache.clear()
}

/// Calls `LruCache::len`: the number of entries.
#[verifier::external_body]
fn lru_len(cache: &LruCache<(u32, u32), usize>) -> (n: usize)
    ensures
        n == lru_entries(*cache).len(),
{
    cache.len()
}

/// The cache: which key occupies which slot.
pub struct ExpertLru {
    capacity: usize,
    cache: LruCache<(u32, u32), usize>,
    /// Slots below this one have been handed out.
    next_free: usize,
}

/// What the cache holds: its capacity and its entries, most recently used
/// first.
#[verifier::ext_equal]
pub struct LruModel {
    pub capacity: nat,
    pub entries: Seq<(ExpertKey, usize)>,
}

impl LruModel {
    /// No key and no slot occurs twice, and the slots in use are the first
    /// ones of the pool.
    pub open spec fn valid(self) -> bool {
        &&& 1 <= self.capacity
        &&& self.entries.len() <= self.capacity
        &&& forall|i: int, j: int|
            0 <= i < j < self.entries.len() ==> {
                &&& (#[trigger] self.entries[i]).0 != (#[trigger] self.entries[j]).0
                &&& self.entries[i].1 != self.entries[j].1
            }
        &&& forall|i: int|
            0 <= i < self.entries.len() ==> (#[trigger] self.entries[i]).1 < self.entries.len()
    }
}

impl View for ExpertLru {
    type V = LruModel;

    closed spec fn view(&self) -> LruModel {
        LruModel { capacity: self.capacity as nat, entries: lru_entries(self.cache) }
    }
}

/// What looking a key up does: the slot, whether it was a hit, and the cache
/// afterwards.
pub open spec fn assigned(
    m: LruModel,
    key: ExpertKey,
    slot: usize,
    hit: bool,
    after: LruModel,
) -> bool {
    &&& after.capacity == m.capacity
    &&& hit <==> !absent(m.entries, key)
    &&& forall|i: int| #[trigger]
        present_at(m.entries, key, i) ==> slot == m.entries[i].1 && after.entries == promoted(
            m.entries,
            i,
        )
    &&& absent(m.entries, key) ==> if m.entries.len() < m.capacity {
        slot == m.entries.len() && after.entries == seq![(key, slot)] + m.entries
    } else {
        slot == m.entries.last().1 && after.entries == seq![(key, slot)] + m.entries.drop_last()
    }
}

/// A cache never holds a key twice, nor more keys than it has slots, and no
/// two keys share a slot.
pub proof fn law_expert_lru_is_valid(c: &ExpertLru)
    requires
        c.wf(),
    ensures
        c@.valid(),
{
}

impl ExpertLru {
    /// The slot bookkeeping agrees with the recency list.
    pub closed spec fn wf(&self) -> bool {
        &&& self@.valid()
        &&& lru_limit(self.cache) == self.capacity
        &&& self.next_free == lru_entries(self.cache).len()
    }

    /// An empty cache over `capacity` slots.
    pub fn new(capacity: usize) -> (r: Self)
        requires
            1 <= capacity <= usize::MAX / 256,
        ensures
            r.wf(),
            r@.valid(),
            r@ == (LruModel { capacity: capacity as nat, entries: Seq::empty() }),
    {
        ExpertLru { capacity, cache: lru_new(capacity), next_free: 0 }
    }

    /// Number of slots.
    pub fn capacity(&self) -> (r: usize)
        ensures
            r == self@.capacity,
    {
        self.capacity
    }

    /// Slots that hold an expert.
    pub fn occupancy(&self) -> (r: usize)
        ensures
            r == self@.entries.len(),
    {
        lru_len(&self.cache)
    }

    /// Forgets every key, so that every slot is free again.
    pub fn clear(&mut self)
        requires
            old(self).wf(),
        ensures
            final(self).wf(),
            final(self)@ == (LruModel { entries: Seq::empty(), ..old(self)@ }),
    {
        lru_clear(&mut self.cache);
        self.next_free = 0;
    }

    /// Looks `key` up and makes it the most recently used. On a miss it gets
    /// a free slot while there is one, else the slot of the least recently
    /// used key. Returns the slot and whether it was a hit.
    pub fn get_or_insert(&mut self, key: ExpertKey) -> (r: (usize, bool))
        requires
            old(self).wf(),
        ensures
            final(self).wf(),
            final(self)@.valid(),
            r.0 < final(self)@.capacity,
            assigned(old(self)@, key, r.0, r.1, final(self)@),
    {
        let ghost s = lru_entries(self.cache);
        let found = lru_get(&mut self.cache, key);
        match found {
            Some(slot) => {
                proof {
                    if absent(s, key) {
                        assert(false);
                    }
                    let i = choose|i: int| 0 <= i < s.len() && (#[trigger] s[i]).0 == key;
                    assert(present_at(s, key, i));
                    lemma_promoted_valid(self@.capacity, s, i);
                    assert forall|j: int| #[trigger] present_at(s, key, j) implies j == i by {
                        if j != i {
                            assert(s[j].0 == s[i].0);
                        }
                    }
                }
                return (slot, true);
            },
            None => {},
        }
        proof {
            if !absent(s, key) {
                let i = choose|i: int| 0 <= i < s.len() && (#[trigger] s[i]).0 == key;
                assert(present_at(s, key, i));
                assert(false);
            }
        }
        let slot: usize = if self.next_free < self.capacity {
            let fresh: usize = self.next_free;
            self.next_free = self.next_free + 1;
            fresh
        } else {
            let freed = lru_pop(&mut self.cache);
            match freed {
                Some((_, slot)) => slot,
                None => 0,
            }
        };
        let replaced = lru_put(&mut self.cache, key, slot);
        proof {
            lemma_inserted_valid(self@.capacity, s, key);
        }
        (slot, false)
    }
}

/// A key keeps its slot until it is evicted: looking up another key leaves
/// every key but the least recently used one where it is, and with a free
/// slot or a hit it leaves that one too.
pub proof fn law_other_keys_keep_their_slots(
    m: LruModel,
    key: ExpertKey,
    slot: usize,
    hit: bool,
    after: LruModel,
    other: int,
)
    requires
        m.valid(),
        assigned(m, key, slot, hit, after),
        0 <= other < m.entries.len(),
        hit || m.entries.len() < m.capacity || other < m.entries.len() - 1,
    ensures
        after.entries.contains(m.entries[other]),
{
    let s = m.entries;
    if absent(s, key) {
        assert(after.entries[other + 1] == s[other]);
    } else {
        let i = choose|i: int| 0 <= i < s.len() && (#[trigger] s[i]).0 == key;
        assert(present_at(s, key, i));
        let k = if other == i {
            0
        } else if other < i {
            other + 1
        } else {
            other
        };
        assert(after.entries[k] == s[other]);
    }
}

/// The key just looked up is the most recently used, in the slot returned;
/// looking it up again is a hit on the same slot and changes nothing.
pub proof fn law_repeated_lookup_hits(
    m: LruModel,
    key: ExpertKey,
    slot: usize,
    hit: bool,
    after: LruModel,
    slot2: usize,
    hit2: bool,
    after2: LruModel,
)
    requires
        m.valid(),
        assigned(m, key, slot, hit, after),
        assigned(after, key, slot2, hit2, after2),
    ensures
        after.entries[0] == (key, slot),
        hit2,
        slot2 == slot,
        after2 == after,
{
    let s = m.entries;
    if !absent(s, key) {
        let i = choose|i: int| 0 <= i < s.len() && (#[trigger] s[i]).0 == key;
        assert(present_at(s, key, i));
    }
    assert(present_at(after.entries, key, 0));
    assert(promoted(after.entries, 0) =~= after.entries);
}

/// A lookup keeps the cache valid.
pub proof fn lemma_assigned_valid(
    m: LruModel,
    key: ExpertKey,
    slot: usize,
    hit: bool,
    after: LruModel,
)
    requires
        m.valid(),
        m.capacity <= usize::MAX,
        assigned(m, key, slot, hit, after),
    ensures
        after.valid(),
{
    let s = m.entries;
    if absent(s, key) {
        lemma_inserted_valid(m.capacity, s, key);
    } else {
        let i = choose|i: int| 0 <= i < s.len() && (#[trigger] s[i]).0 == key;
        assert(present_at(s, key, i));
        lemma_promoted_valid(m.capacity, s, i);
    }
}

proof fn lemma_promoted_valid(capacity: nat, s: Seq<(ExpertKey, usize)>, i: int)
    requires
        (LruModel { capacity, entries: s }).valid(),
        0 <= i < s.len(),
    ensures
        (LruModel { capacity, entries: promoted(s, i) }).valid(),
        promoted(s, i).len() == s.len(),
{
    let p = promoted(s, i);
    assert forall|a: int, b: int| 0 <= a < b < p.len() implies {
        &&& (#[trigger] p[a]).0 != (#[trigger] p[b]).0
        &&& p[a].1 != p[b].1
    } by {
        let x = if a == 0 {
            i
        } else if a - 1 < i {
            a - 1
        } else {
            a
        };
        let y = if b - 1 < i {
            b - 1
        } else {
            b
        };
        assert(p[a] == s[x]);
        assert(p[b] == s[y]);
        assert(x != y);
    }
    assert forall|a: int| 0 <= a < p.len() implies (#[trigger] p[a]).1 < p.len() by {
        let x = if a == 0 {
            i
        } else if a - 1 < i {
            a - 1
        } else {
            a
        };
        assert(p[a] == s[x]);
    }
}

proof fn lemma_inserted_valid(capacity: nat, s: Seq<(ExpertKey, usize)>, key: ExpertKey)
    requires
        (LruModel { capacity, entries: s }).valid(),
        capacity <= usize::MAX,
        absent(s, key),
    ensures
        s.len() < capacity ==> (LruModel {
            capacity,
            entries: seq![(key, s.len() as usize)] + s,
        }).valid(),
        s.len() == capacity ==> (LruModel {
            capacity,
            entries: seq![(key, s.last().1)] + s.drop_last(),
        }).valid(),
{
    if s.len() < capacity {
        let p = seq![(key, s.len() as usize)] + s;
        assert forall|a: int, b: int| 0 <= a < b < p.len() implies {
            &&& (#[trigger] p[a]).0 != (#[trigger] p[b]).0
            &&& p[a].1 != p[b].1
        } by {
            assert(p[b] == s[b - 1]);
            if a > 0 {
                assert(p[a] == s[a - 1]);
            }
        }
        assert forall|a: int| 0 <= a < p.len() implies (#[trigger] p[a]).1 < p.len() by {
            if a > 0 {
                assert(p[a] == s[a - 1]);
            }
        }
    } else {
        let p = seq![(key, s.last().1)] + s.drop_last();
        assert forall|a: int, b: int| 0 <= a < b < p.len() implies {
            &&& (#[trigger] p[a]).0 != (#[trigger] p[b]).0
            &&& p[a].1 != p[b].1
        } by {
            assert(p[b] == s[b - 1]);
            if a > 0 {
                assert(p[a] == s[a - 1]);
            } else {
                assert(s[b - 1].1 != s[s.len() - 1].1);
            }
        }
        assert forall|a: int| 0 <= a < p.len() implies (#[trigger] p[a]).1 < p.len() by {
            if a > 0 {
                assert(p[a] == s[a - 1]);
            } else {
                assert(s[s.len() - 1].1 < s.len());
            }
        }
    }
}

} // verus!
