//! Host-memory snapshot store: byte-budgeted, evicting the least recently
//! used entry first (a capture counts as a use). One entry can be pinned: it
//! is the one the next turn is expected to ask for, and nothing but another
//! pinned entry takes its place. A zero budget disables the store.

use super::hash::{chain_hash, ChainHash};
use super::types::{
    KeyModel, KvConfigStamp, ModelStamp, SnapshotData, SnapshotKey, SnapshotModel,
};
use crate::bytes::same_tokens;
use std::sync::Arc;
use vstd::prelude::*;
use vstd::slice::slice_subrange;

verus! {

/// One stored snapshot.
struct Entry {
    key: SnapshotKey,
    data: Arc<SnapshotData>,
    bytes: usize,
}

/// What an entry holds.
#[verifier::ext_equal]
pub struct RamEntry {
    pub key: KeyModel,
    pub data: SnapshotModel,
}

impl Entry {
    spec fn model(self) -> RamEntry {
        RamEntry { key: self.key@, data: self.data@ }
    }

    /// Whether the entry may be offered for these tokens.
    fn serves(&self, model: &ModelStamp, kv: &KvConfigStamp, token_ids: &[u32]) -> (r: bool)
        ensures
            r == offers(self.model(), model@, *kv, token_ids@),
    {
        if !(self.key.model.same(model) && self.key.kv == *kv && (self.key.position as usize)
            < token_ids.len()) {
            return false;
        }
        let covered = slice_subrange(token_ids, 0, self.key.position as usize);
        assert(covered@ =~= token_ids@.take(self.key.position as int));
        same_tokens(self.data.token_ids.as_slice(), covered)
    }
}

/// The store: the pinned entry, and the others in the order they were last
/// used, oldest first.
pub struct RamStore {
    budget_bytes: usize,
    /// Bytes of the entries that are not pinned.
    used_bytes: usize,
    entries: Vec<Entry>,
    pinned: Option<Entry>,
}

/// What the store holds.
#[verifier::ext_equal]
pub struct RamModel {
    pub budget: nat,
    pub entries: Seq<RamEntry>,
    pub pinned: Option<RamEntry>,
}

/// The key a snapshot is stored under.
pub open spec fn key_of(model: (Seq<char>, u64), kv: KvConfigStamp, d: SnapshotModel) -> KeyModel {
    KeyModel { model, kv, position: d.position, chain_hash: chain_hash(d.token_ids) }
}

/// Payload bytes of a run of entries.
pub open spec fn total(s: Seq<RamEntry>) -> nat
    decreases s.len(),
{
    if s.len() == 0 {
        0
    } else {
        s[0].data.byte_size() + total(s.drop_first())
    }
}

/// The entries whose key is not `key`.
pub open spec fn without(s: Seq<RamEntry>, key: KeyModel) -> Seq<RamEntry>
    decreases s.len(),
{
    if s.len() == 0 {
        s
    } else if s.last().key == key {
        without(s.drop_last(), key)
    } else {
        without(s.drop_last(), key).push(s.last())
    }
}

/// What is left after dropping the least recently used entries until the
/// rest takes at most `room` bytes.
pub open spec fn evict_to(s: Seq<RamEntry>, room: nat) -> Seq<RamEntry>
    decreases s.len(),
{
    if total(s) <= room || s.len() == 0 {
        s
    } else {
        evict_to(s.drop_first(), room)
    }
}

/// The store after storing `d` under `(model, kv)` as its pinned entry. The
/// entry that was pinned before is one like the others from then on.
pub open spec fn pinned_inserted(
    m: RamModel,
    model: (Seq<char>, u64),
    kv: KvConfigStamp,
    d: SnapshotModel,
) -> RamModel {
    if m.budget == 0 || d.byte_size() > m.budget {
        m
    } else {
        let key = key_of(model, kv, d);
        RamModel {
            entries: evict_to(
                without(m.all(), key),
                (m.budget - d.byte_size()) as nat,
            ),
            pinned: Some(RamEntry { key, data: d }),
            ..m
        }
    }
}

/// The store after storing `d` under `(model, kv)`: beside the pinned entry,
/// or in its place if it is the same one. Without the room for that it is not
/// stored.
pub open spec fn inserted(
    m: RamModel,
    model: (Seq<char>, u64),
    kv: KvConfigStamp,
    d: SnapshotModel,
) -> RamModel {
    let key = key_of(model, kv, d);
    if m.pinned is Some && m.pinned->0.key == key {
        pinned_inserted(m, model, kv, d)
    } else if m.budget == 0 || m.pinned_bytes() + d.byte_size() > m.budget {
        m
    } else {
        RamModel {
            entries: evict_to(
                without(m.entries, key),
                (m.budget - m.pinned_bytes() - d.byte_size()) as nat,
            ).push(RamEntry { key, data: d }),
            ..m
        }
    }
}

/// An entry that may be offered for `tokens`: captured from the same model
/// and configuration, over exactly the first `position` of the tokens, with
/// at least one token left over.
pub open spec fn offers(
    e: RamEntry,
    model: (Seq<char>, u64),
    kv: KvConfigStamp,
    tokens: Seq<u32>,
) -> bool {
    &&& e.key.model == model
    &&& e.key.kv == kv
    &&& e.key.position < tokens.len()
    &&& e.data.token_ids == tokens.take(e.key.position as int)
}

/// The entry at `i` is offered and no offered entry covers more tokens.
pub open spec fn best_offer(
    s: Seq<RamEntry>,
    model: (Seq<char>, u64),
    kv: KvConfigStamp,
    tokens: Seq<u32>,
    i: int,
) -> bool {
    &&& 0 <= i < s.len()
    &&& offers(s[i], model, kv, tokens)
    &&& forall|j: int|
        0 <= j < s.len() && offers(#[trigger] s[j], model, kv, tokens) ==> s[j].key.position
            <= s[i].key.position
}

/// The outcome of a lookup: what is served, and the store afterwards.
pub open spec fn served(
    m: RamModel,
    model: (Seq<char>, u64),
    kv: KvConfigStamp,
    tokens: Seq<u32>,
    hit: Option<SnapshotModel>,
    after: RamModel,
) -> bool {
    match hit {
        None => {
            &&& after == m
            &&& forall|i: int|
                0 <= i < m.all().len() ==> !offers(
                    #[trigger] m.all()[i],
                    model,
                    kv,
                    tokens,
                )
        },
        Some(d) => exists|i: int|
            {
                &&& #[trigger] best_offer(m.all(), model, kv, tokens, i)
                &&& d == m.all()[i].data
                &&& after == (if i < m.entries.len() {
                    RamModel { entries: m.entries.remove(i).push(m.entries[i]), ..m }
                } else {
                    m
                })
            },
    }
}

/// The content of an optional shared snapshot.
pub open spec fn shared_view(r: Option<Arc<SnapshotData>>) -> Option<SnapshotModel> {
    match r {
        None => None,
        Some(d) => Some(d@),
    }
}

impl RamModel {
    /// Every entry, with the pinned one as the most recently used.
    pub open spec fn all(self) -> Seq<RamEntry> {
        match self.pinned {
            None => self.entries,
            Some(p) => self.entries.push(p),
        }
    }

    /// Payload bytes of the pinned entry.
    pub open spec fn pinned_bytes(self) -> nat {
        match self.pinned {
            None => 0,
            Some(p) => p.data.byte_size(),
        }
    }

    /// Payload bytes held.
    pub open spec fn used(self) -> nat {
        total(self.entries) + self.pinned_bytes()
    }

    /// Nothing occurs twice, every entry sits under its own key, and the
    /// entries fit the budget.
    pub open spec fn valid(self) -> bool {
        &&& self.used() <= self.budget
        &&& self.pinned matches Some(p) ==> {
            &&& p.key == key_of(p.key.model, p.key.kv, p.data)
            &&& forall|i: int|
                0 <= i < self.entries.len() ==> (#[trigger] self.entries[i]).key != p.key
        }
        &&& forall|i: int, j: int|
            0 <= i < j < self.entries.len() ==> (#[trigger] self.entries[i]).key != (
            #[trigger] self.entries[j]).key
        &&& forall|i: int|
            0 <= i < self.entries.len() ==> {
                let e = #[trigger] self.entries[i];
                e.key == key_of(e.key.model, e.key.kv, e.data)
            }
    }
}

impl View for RamStore {
    type V = RamModel;

    closed spec fn view(&self) -> RamModel {
        RamModel {
            budget: self.budget_bytes as nat,
            entries: self.entries@.map_values(|e: Entry| e.model()),
            pinned: match self.pinned {
                None => None,
                Some(e) => Some(e.model()),
            },
        }
    }
}

proof fn lemma_total_remove(s: Seq<RamEntry>, i: int)
    requires
        0 <= i < s.len(),
    ensures
        total(s) == total(s.remove(i)) + s[i].data.byte_size(),
    decreases s.len(),
{
    if i == 0 {
        assert(s.remove(0) =~= s.drop_first());
    } else {
        lemma_total_remove(s.drop_first(), i - 1);
        assert(s.remove(i).drop_first() =~= s.drop_first().remove(i - 1));
        assert(s.remove(i)[0] == s[0]);
    }
}

proof fn lemma_total_push(s: Seq<RamEntry>, e: RamEntry)
    ensures
        total(s.push(e)) == total(s) + e.data.byte_size(),
    decreases s.len(),
{
    if s.len() == 0 {
        assert(s.push(e).drop_first() =~= Seq::empty());
        assert(total(s.push(e).drop_first()) == 0);
    } else {
        lemma_total_push(s.drop_first(), e);
        assert(s.push(e).drop_first() =~= s.drop_first().push(e));
    }
}

/// Filtering out an absent key changes nothing.
proof fn lemma_without_absent(s: Seq<RamEntry>, key: KeyModel)
    requires
        forall|i: int| 0 <= i < s.len() ==> (#[trigger] s[i]).key != key,
    ensures
        without(s, key) == s,
    decreases s.len(),
{
    if s.len() > 0 {
        lemma_without_absent(s.drop_last(), key);
        assert(s.last().key != key);
        assert(s.drop_last().push(s.last()) =~= s);
    }
}

/// Filtering out a key that occurs once removes that entry.
proof fn lemma_without_present(s: Seq<RamEntry>, key: KeyModel, i: int)
    requires
        0 <= i < s.len(),
        s[i].key == key,
        forall|j: int| 0 <= j < s.len() && j != i ==> (#[trigger] s[j]).key != key,
    ensures
        without(s, key) == s.remove(i),
    decreases s.len(),
{
    let p = s.drop_last();
    if i == s.len() - 1 {
        lemma_without_absent(p, key);
        assert(s.remove(i) =~= p);
    } else {
        lemma_without_present(p, key, i);
        assert(s.last().key != key);
        assert(s.remove(i) =~= p.remove(i).push(s.last()));
    }
}

/// Eviction keeps the most recently used entries, fits the room, and drops
/// nothing that could have stayed.
pub proof fn law_eviction_drops_only_the_oldest(s: Seq<RamEntry>, room: nat)
    ensures
        total(evict_to(s, room)) <= room,
        evict_to(s, room).len() <= s.len(),
        evict_to(s, room) == s.skip(s.len() - evict_to(s, room).len()),
        forall|n: int|
            0 <= n < s.len() - evict_to(s, room).len() ==> total(#[trigger] s.skip(n)) > room,
    decreases s.len(),
{
    if total(s) <= room || s.len() == 0 {
        assert(s.skip(0) =~= s);
    } else {
        let t = s.drop_first();
        law_eviction_drops_only_the_oldest(t, room);
        let kept = evict_to(t, room);
        assert(s.skip(s.len() - kept.len()) =~= t.skip(t.len() - kept.len()));
        assert forall|n: int| 0 <= n < s.len() - kept.len() implies total(#[trigger] s.skip(n))
            > room by {
            if n == 0 {
                assert(s.skip(0) =~= s);
            } else {
                assert(s.skip(n) =~= t.skip(n - 1));
            }
        }
    }
}

/// An entry is kept under the position of its own snapshot.
pub proof fn lemma_all_keyed(m: RamModel, i: int)
    requires
        m.valid(),
        0 <= i < m.all().len(),
    ensures
        m.all()[i].key.position == m.all()[i].data.position,
{
    if i < m.entries.len() {
        assert(m.all()[i] == m.entries[i]);
    } else {
        assert(m.all()[i] == m.pinned->0);
    }
}

/// What was stored is offered: right after storing a snapshot that there is
/// room for, a lookup for any longer sequence that starts with its tokens
/// finds an entry at least as long, and finds this very snapshot unless a
/// longer one matches too.
pub proof fn law_stored_snapshot_is_offered(
    m: RamModel,
    model: (Seq<char>, u64),
    kv: KvConfigStamp,
    d: SnapshotModel,
    tokens: Seq<u32>,
    i: int,
)
    requires
        m.valid(),
        0 < m.budget,
        m.pinned_bytes() + d.byte_size() <= m.budget,
        d.position == d.token_ids.len(),
        d.token_ids.len() < tokens.len(),
        tokens.take(d.token_ids.len() as int) == d.token_ids,
        best_offer(inserted(m, model, kv, d).all(), model, kv, tokens, i),
    ensures
        inserted(m, model, kv, d).all()[i].key.position >= d.position,
        inserted(m, model, kv, d).all()[i].key.position == d.position
            ==> inserted(m, model, kv, d).all()[i].data == d,
{
    let key = key_of(model, kv, d);
    let after = inserted(m, model, kv, d);
    let s = after.all();
    let new = RamEntry { key, data: d };
    if m.pinned is Some && m.pinned->0.key == key {
        law_pinned_snapshot_is_offered(m, model, kv, d, tokens, i);
    } else {
        let room = (m.budget - m.pinned_bytes() - d.byte_size()) as nat;
        let kept = evict_to(without(m.entries, key), room);
        let n = kept.len() as int;
        assert(s[n] == new);
        assert(offers(s[n], model, kv, tokens));
        if s[i].key.position == d.position && i != n {
            if i < n {
                lemma_kept_entry(m.entries, key, room, i);
                assert(s[i] == kept[i]);
            } else {
                assert(s[i] == m.pinned->0);
            }
            assert(s[i].key == key_of(s[i].key.model, s[i].key.kv, s[i].data));
            assert(s[i].key == key);
        }
    }
}

/// What was pinned is offered, in the same way.
pub proof fn law_pinned_snapshot_is_offered(
    m: RamModel,
    model: (Seq<char>, u64),
    kv: KvConfigStamp,
    d: SnapshotModel,
    tokens: Seq<u32>,
    i: int,
)
    requires
        m.valid(),
        0 < m.budget,
        d.byte_size() <= m.budget,
        d.position == d.token_ids.len(),
        d.token_ids.len() < tokens.len(),
        tokens.take(d.token_ids.len() as int) == d.token_ids,
        best_offer(pinned_inserted(m, model, kv, d).all(), model, kv, tokens, i),
    ensures
        pinned_inserted(m, model, kv, d).all()[i].key.position >= d.position,
        pinned_inserted(m, model, kv, d).all()[i].key.position == d.position
            ==> pinned_inserted(m, model, kv, d).all()[i].data == d,
{
    let key = key_of(model, kv, d);
    let room = (m.budget - d.byte_size()) as nat;
    let kept = evict_to(without(m.all(), key), room);
    let s = pinned_inserted(m, model, kv, d).all();
    let n = kept.len() as int;
    assert(s[n] == RamEntry { key, data: d });
    assert(offers(s[n], model, kv, tokens));
    if s[i].key.position == d.position && i != n {
        lemma_kept_entry(m.all(), key, room, i);
        assert(s[i] == kept[i]);
        assert(s[i].key == key);
    }
}

/// The pinned entry stays: neither storing another snapshot nor a lookup
/// takes it away, and pinning a snapshot that fits the budget makes it the
/// one that is pinned.
pub proof fn law_pinned_snapshot_stays(
    m: RamModel,
    model: (Seq<char>, u64),
    kv: KvConfigStamp,
    d: SnapshotModel,
    tokens: Seq<u32>,
    hit: Option<SnapshotModel>,
    after: RamModel,
)
    requires
        m.valid(),
        served(m, model, kv, tokens, hit, after),
    ensures
        after.pinned == m.pinned,
        (m.pinned is Some && m.pinned->0.key != key_of(model, kv, d)) ==> inserted(
            m,
            model,
            kv,
            d,
        ).pinned == m.pinned,
        (0 < m.budget && d.byte_size() <= m.budget) ==> pinned_inserted(m, model, kv, d).pinned
            == Some(RamEntry { key: key_of(model, kv, d), data: d }),
{
}

/// What is left of entries was there before, under another key than the one
/// that was dropped.
proof fn lemma_kept_entry(s: Seq<RamEntry>, key: KeyModel, room: nat, i: int)
    requires
        0 <= i < evict_to(without(s, key), room).len(),
    ensures
        s.contains(evict_to(without(s, key), room)[i]),
        evict_to(without(s, key), room)[i].key != key,
{
    let w = without(s, key);
    let kept = evict_to(w, room);
    lemma_without_members(s, key);
    law_eviction_drops_only_the_oldest(w, room);
    let wi = i + w.len() - kept.len();
    assert(kept[i] == w[wi]);
}

proof fn lemma_without_members(s: Seq<RamEntry>, key: KeyModel)
    ensures
        forall|i: int|
            0 <= i < without(s, key).len() ==> s.contains(#[trigger] without(s, key)[i])
                && without(s, key)[i].key != key,
    decreases s.len(),
{
    if s.len() > 0 {
        let p = s.drop_last();
        lemma_without_members(p, key);
        let w = without(s, key);
        assert forall|i: int| 0 <= i < w.len() implies s.contains(#[trigger] w[i]) && w[i].key
            != key by {
            let q = without(p, key);
            if i < q.len() {
                assert(w[i] == q[i]);
                let j = choose|j: int| 0 <= j < p.len() && p[j] == q[i];
                assert(s[j] == q[i]);
            } else {
                assert(w[i] == s.last());
                assert(s[s.len() - 1] == s.last());
            }
        }
    }
}

/// Looking a snapshot up again right away finds it again: serving an entry
/// leaves every entry in place and changes only how recently it was used.
pub proof fn law_serving_keeps_every_entry(s: Seq<RamEntry>, i: int)
    requires
        0 <= i < s.len(),
    ensures
        s.remove(i).push(s[i]).to_multiset() == s.to_multiset(),
        s.remove(i).push(s[i]).last() == s[i],
{
    broadcast use vstd::seq_lib::group_to_multiset_ensures;

    assert(s.remove(i).push(s[i]).to_multiset() =~= s.to_multiset());
}

/// Another handle on the same stored snapshot. Calls `Arc::clone`, which
/// makes a second pointer to the one value.
#[verifier::external_body]
pub(crate) fn share(data: &Arc<SnapshotData>) -> (r: Arc<SnapshotData>)
    ensures
        r == *data,
{
    Arc::clone(data)
}

/// What a store holds fits its budget, and nothing in it occurs twice.
pub proof fn law_store_is_valid(s: &RamStore)
    requires
        s.wf(),
    ensures
        s@.valid(),
{
}

impl RamStore {
    /// The budget and the running total agree with what is stored.
    pub closed spec fn wf(&self) -> bool {
        &&& self@.valid()
        &&& self.used_bytes == total(self@.entries)
        &&& forall|i: int|
            0 <= i < self.entries@.len() ==> (#[trigger] self.entries@[i]).bytes
                == self.entries@[i].data@.byte_size()
        &&& self.pinned matches Some(e) ==> e.bytes == e.data@.byte_size()
    }

    /// An empty store with the given budget.
    pub fn new(budget_bytes: usize) -> (r: Self)
        ensures
            r.wf(),
            r@ == (RamModel {
                budget: budget_bytes as nat,
                entries: Seq::empty(),
                pinned: None,
            }),
    {
        let r = RamStore { budget_bytes, used_bytes: 0, entries: Vec::new(), pinned: None };
        assert(r@.entries =~= Seq::empty());
        r
    }

    /// Whether the store keeps anything at all.
    pub fn is_enabled(&self) -> (r: bool)
        ensures
            r == (self@.budget > 0),
    {
        self.budget_bytes > 0
    }

    /// Payload bytes of the pinned entry.
    fn pinned_bytes(&self) -> (r: usize)
        requires
            self.wf(),
        ensures
            r == self@.pinned_bytes(),
            r <= self.budget_bytes,
    {
        match &self.pinned {
            None => 0,
            Some(e) => e.bytes,
        }
    }

    /// Whether a snapshot of that size would be stored beside the pinned
    /// entry.
    pub fn would_keep(&self, bytes: usize) -> (r: bool)
        requires
            self.wf(),
        ensures
            r == (self@.budget > 0 && self@.pinned_bytes() + bytes <= self@.budget),
    {
        self.budget_bytes > 0 && bytes <= self.budget_bytes - self.pinned_bytes()
    }

    /// Whether a snapshot of that size would be stored as the pinned entry.
    pub fn would_keep_pinned(&self, bytes: usize) -> (r: bool)
        ensures
            r == (self@.budget > 0 && bytes <= self@.budget),
    {
        self.budget_bytes > 0 && bytes <= self.budget_bytes
    }

    /// Payload bytes held.
    pub fn used_bytes(&self) -> (r: usize)
        requires
            self.wf(),
        ensures
            r == self@.used(),
            r <= self@.budget,
    {
        self.used_bytes + self.pinned_bytes()
    }

    /// Number of snapshots held.
    pub fn len(&self) -> (r: usize)
        requires
            self.wf(),
            self@.all().len() <= usize::MAX,
        ensures
            r == self@.all().len(),
    {
        match &self.pinned {
            None => self.entries.len(),
            Some(_) => self.entries.len() + 1,
        }
    }

    /// Whether no snapshot is held.
    pub fn is_empty(&self) -> (r: bool)
        ensures
            r == (self@.all().len() == 0),
    {
        self.entries.len() == 0 && self.pinned.is_none()
    }

    /// Stores `data`, first dropping an entry with the same identity, then
    /// the least recently used entries until the new one fits beside the
    /// pinned one. A snapshot that cannot fit there is not stored.
    pub fn insert(&mut self, model: ModelStamp, kv: KvConfigStamp, data: SnapshotData)
        requires
            old(self).wf(),
            data@.byte_size() <= usize::MAX,
        ensures
            final(self).wf(),
            final(self)@ == inserted(old(self)@, model@, kv, data@),
    {
        self.insert_shared(model, kv, Arc::new(data));
    }

    /// Stores `data` as the pinned entry, dropping the least recently used
    /// entries until it fits. The entry that was pinned before stays as long
    /// as there is room. A snapshot larger than the whole budget is not
    /// stored.
    pub fn insert_pinned(&mut self, model: ModelStamp, kv: KvConfigStamp, data: SnapshotData)
        requires
            old(self).wf(),
            data@.byte_size() <= usize::MAX,
        ensures
            final(self).wf(),
            final(self)@ == pinned_inserted(old(self)@, model@, kv, data@),
    {
        let key = SnapshotKey {
            model,
            kv,
            position: data.position,
            chain_hash: ChainHash::of(data.token_ids.as_slice()),
        };
        self.pin(key, Arc::new(data));
    }

    /// [`Self::insert`] for a snapshot that is already shared.
    pub fn insert_shared(&mut self, model: ModelStamp, kv: KvConfigStamp, data: Arc<SnapshotData>)
        requires
            old(self).wf(),
            data@.byte_size() <= usize::MAX,
        ensures
            final(self).wf(),
            final(self)@ == inserted(old(self)@, model@, kv, data@),
    {
        let key = SnapshotKey {
            model,
            kv,
            position: data.position,
            chain_hash: ChainHash::of(data.token_ids.as_slice()),
        };
        let is_pinned: bool = match &self.pinned {
            None => false,
            Some(p) => p.key.same(&key),
        };
        if is_pinned {
            self.pin(key, data);
            return;
        }
        let bytes: usize = data.byte_size();
        if !self.would_keep(bytes) {
            return;
        }
        self.remove(&key);
        let room: usize = self.budget_bytes - self.pinned_bytes() - bytes;
        self.evict(room, Ghost(key@));
        let ghost before = self@.entries;
        let ghost e = RamEntry { key: key@, data: data@ };
        self.used_bytes = self.used_bytes + bytes;
        self.entries.push(Entry { key, data, bytes });
        proof {
            lemma_total_push(before, e);
            assert(self@.entries =~= before.push(e));
        }
    }

    /// Stores a snapshot under a key as the pinned entry.
    fn pin(&mut self, key: SnapshotKey, data: Arc<SnapshotData>)
        requires
            old(self).wf(),
            data@.byte_size() <= usize::MAX,
            key@ == key_of(key@.model, key@.kv, data@),
        ensures
            final(self).wf(),
            final(self)@ == pinned_inserted(old(self)@, key@.model, key@.kv, data@),
    {
        let bytes: usize = data.byte_size();
        if !self.would_keep_pinned(bytes) {
            return;
        }
        let ghost m = self@;
        match self.pinned.take() {
            None => {},
            Some(p) => {
                let ghost before = self.entries@;
                proof {
                    assert(m.pinned == Some(p.model()));
                    lemma_total_push(m.entries, p.model());
                }
                self.used_bytes = self.used_bytes + p.bytes;
                self.entries.push(p);
                proof {
                    assert(self@.entries =~= m.all());
                    assert forall|i: int, j: int|
                        0 <= i < j < self@.entries.len() implies (#[trigger] self@.entries[i]).key
                        != (#[trigger] self@.entries[j]).key by {
                        assert(self@.entries[i] == m.entries[i]);
                        if j < m.entries.len() {
                            assert(self@.entries[j] == m.entries[j]);
                        }
                    }
                    assert forall|i: int| 0 <= i < self@.entries.len() implies ({
                        let e = #[trigger] self@.entries[i];
                        e.key == key_of(e.key.model, e.key.kv, e.data)
                    }) by {
                        if i < m.entries.len() {
                            assert(self@.entries[i] == m.entries[i]);
                        }
                    }
                }
            },
        }
        proof {
            assert(self@.entries =~= m.all());
        }
        self.remove(&key);
        let room: usize = self.budget_bytes - bytes;
        self.evict(room, Ghost(key@));
        self.pinned = Some(Entry { key, data, bytes });
    }

    /// Drops the least recently used entries until the rest takes at most
    /// `room` bytes.
    fn evict(&mut self, room: usize, Ghost(key): Ghost<KeyModel>)
        requires
            old(self).wf(),
            forall|i: int|
                0 <= i < old(self)@.entries.len() ==> (#[trigger] old(self)@.entries[i]).key
                    != key,
        ensures
            final(self).wf(),
            final(self).budget_bytes == old(self).budget_bytes,
            final(self)@ == (RamModel {
                entries: evict_to(old(self)@.entries, room as nat),
                ..old(self)@
            }),
            final(self).used_bytes <= room,
            forall|i: int|
                0 <= i < final(self)@.entries.len() ==> (#[trigger] final(self)@.entries[i]).key
                    != key,
    {
        let ghost kept = self@.entries;
        while self.used_bytes > room
            invariant
                self.wf(),
                self.budget_bytes == old(self).budget_bytes,
                self@.pinned == old(self)@.pinned,
                kept == old(self)@.entries,
                evict_to(self@.entries, room as nat) == evict_to(kept, room as nat),
                forall|i: int|
                    0 <= i < self@.entries.len() ==> (#[trigger] self@.entries[i]).key != key,
            decreases self.entries@.len(),
        {
            self.evict_one();
        }
    }

    /// Drops the entry stored under `key`, if there is one.
    fn remove(&mut self, key: &SnapshotKey)
        requires
            old(self).wf(),
        ensures
            final(self).wf(),
            final(self).budget_bytes == old(self).budget_bytes,
            final(self)@.pinned == old(self)@.pinned,
            final(self)@.entries == without(old(self)@.entries, key@),
            forall|i: int|
                0 <= i < final(self)@.entries.len() ==> (#[trigger] final(self)@.entries[i]).key
                    != key@,
    {
        let mut i: usize = 0;
        let ghost s = self@.entries;
        while i < self.entries.len()
            invariant
                *self == *old(self),
                self.wf(),
                s == self@.entries,
                i <= self.entries@.len(),
                s.len() == self.entries@.len(),
                forall|j: int| 0 <= j < i ==> (#[trigger] s[j]).key != key@,
            decreases self.entries@.len() - i,
        {
            assert(s[i as int] == self.entries@[i as int].model());
            if self.entries[i].key.same(key) {
                proof {
                    lemma_without_present(s, key@, i as int);
                    lemma_total_remove(s, i as int);
                }
                let gone = self.entries.remove(i);
                self.used_bytes = self.used_bytes - gone.bytes;
                proof {
                    assert(self@.entries =~= s.remove(i as int));
                    lemma_valid_after_removal(old(self)@, i as int);
                }
                return;
            }
            i = i + 1;
        }
        proof {
            lemma_without_absent(s, key@);
        }
    }

    /// Drops the least recently used entry.
    fn evict_one(&mut self)
        requires
            old(self).wf(),
            old(self)@.entries.len() > 0 || old(self).used_bytes > 0,
        ensures
            final(self).wf(),
            final(self).budget_bytes == old(self).budget_bytes,
            final(self)@.pinned == old(self)@.pinned,
            old(self)@.entries.len() > 0,
            final(self)@.entries == old(self)@.entries.drop_first(),
            final(self).entries@.len() < old(self).entries@.len(),
    {
        let ghost s = self@.entries;
        assert(s[0] == self.entries@[0].model());
        let gone = self.entries.remove(0);
        self.used_bytes = self.used_bytes - gone.bytes;
        proof {
            lemma_total_remove(s, 0);
            assert(self@.entries =~= s.remove(0));
            assert(s.remove(0) =~= s.drop_first());
            lemma_valid_after_removal(old(self)@, 0);
        }
    }

    /// The snapshot that covers the longest prefix of `token_ids` among those
    /// captured from the same model and configuration; it is then the most
    /// recently used. Only prefixes strictly shorter than `token_ids` are
    /// offered, so at least one token is left to prefill.
    pub fn find_best(
        &mut self,
        model: &ModelStamp,
        kv: &KvConfigStamp,
        token_ids: &[u32],
    ) -> (r: Option<Arc<SnapshotData>>)
        requires
            old(self).wf(),
        ensures
            final(self).wf(),
            served(old(self)@, model@, *kv, token_ids@, shared_view(r), final(self)@),
    {
        let mut best: Option<usize> = None;
        let mut i: usize = 0;
        let ghost m = self@;
        let ghost s = self@.entries;
        while i < self.entries.len()
            invariant
                *self == *old(self),
                self.wf(),
                s == self@.entries,
                s.len() == self.entries@.len(),
                i <= self.entries@.len(),
                match best {
                    None => forall|j: int|
                        0 <= j < i ==> !offers(#[trigger] s[j], model@, *kv, token_ids@),
                    Some(b) => {
                        &&& b < i
                        &&& offers(s[b as int], model@, *kv, token_ids@)
                        &&& forall|j: int|
                            0 <= j < i && offers(#[trigger] s[j], model@, *kv, token_ids@)
                                ==> s[j].key.position <= s[b as int].key.position
                    },
                },
            decreases self.entries@.len() - i,
        {
            assert(s[i as int] == self.entries@[i as int].model());
            if self.entries[i].serves(model, kv, token_ids) {
                let better: bool = match best {
                    None => true,
                    Some(b) => {
                        assert(s[b as int] == self.entries@[b as int].model());
                        self.entries[b].key.position < self.entries[i].key.position
                    },
                };
                if better {
                    best = Some(i);
                }
            }
            i = i + 1;
        }
        let ghost all = m.all();
        proof {
            assert forall|j: int| 0 <= j < s.len() implies all[j] == #[trigger] s[j] by {}
            assert forall|j: int| s.len() <= j < all.len() implies Some(#[trigger] all[j])
                == m.pinned by {}
        }
        match &self.pinned {
            None => {},
            Some(p) => {
                if p.serves(model, kv, token_ids) {
                    let longest: bool = match best {
                        None => true,
                        Some(b) => {
                            assert(s[b as int] == self.entries@[b as int].model());
                            self.entries[b].key.position <= p.key.position
                        },
                    };
                    if longest {
                        proof {
                            assert(all[s.len() as int] == p.model());
                            assert(best_offer(all, model@, *kv, token_ids@, s.len() as int));
                        }
                        return Some(share(&p.data));
                    }
                }
            },
        }
        match best {
            None => None,
            Some(b) => {
                proof {
                    assert(s[b as int] == self.entries@[b as int].model());
                    lemma_total_remove(s, b as int);
                    lemma_total_push(s.remove(b as int), s[b as int]);
                }
                let e = self.entries.remove(b);
                let data = share(&e.data);
                self.entries.push(e);
                proof {
                    assert(self@.entries =~= s.remove(b as int).push(s[b as int]));
                    assert(all[b as int] == s[b as int]);
                    assert(best_offer(all, model@, *kv, token_ids@, b as int));
                }
                Some(data)
            },
        }
    }
}

/// Removing an entry keeps the store valid.
proof fn lemma_valid_after_removal(m: RamModel, i: int)
    requires
        0 <= i < m.entries.len(),
        m.valid(),
    ensures
        (RamModel { entries: m.entries.remove(i), ..m }).valid(),
{
    lemma_total_remove(m.entries, i);
}

} // verus!
