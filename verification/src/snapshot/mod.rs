//! Conversation-state snapshots: immutable checkpoints of a hybrid model's
//! full decode state at a token position, addressed by an exact match of the
//! token prefix. Two tiers, both optional: host memory ([`ram`]) and disk
//! ([`disk`]). [`turn`] decides when a conversation turn uses them.

pub mod codec;
pub mod disk;
pub mod frame;
pub mod hash;
pub mod order;
pub mod ram;
pub mod search;
pub mod turn;
pub mod types;

use disk::{
    disk_best, disk_forgotten, disk_inserted, disk_offers, disk_total, disk_touched, file_holds,
    names, record_for, DiskModel, DiskStore, PendingWrite,
};
use codec::encoded;
use frame::framed;
use ram::{inserted, pinned_inserted, served, shared_view, RamModel, RamStore};
use search::{next_file, Wanted};
use std::sync::Arc;
use types::{KvConfigStamp, ModelStamp, SnapshotData, SnapshotModel};
use vstd::prelude::*;

verus! {

/// The tier a snapshot was served from.
#[derive(Debug, Clone, Copy, PartialEq, Eq, Structural)]
pub enum SnapshotTier {
    Ram,
    Disk,
}

/// Both tiers of the snapshot store.
pub struct SnapshotStore {
    ram: RamStore,
    disk: Option<DiskStore>,
}

/// What the store holds.
pub struct StoreModel {
    pub ram: RamModel,
    pub disk: Option<DiskModel>,
}

impl View for SnapshotStore {
    type V = StoreModel;

    closed spec fn view(&self) -> StoreModel {
        StoreModel {
            ram: self.ram@,
            disk: match self.disk {
                None => None,
                Some(d) => Some(d@),
            },
        }
    }
}

/// The content of an optional snapshot.
pub open spec fn owned_view(r: Option<SnapshotData>) -> Option<SnapshotModel> {
    match r {
        None => None,
        Some(d) => Some(d@),
    }
}

/// The content and tier of a lookup's answer.
pub open spec fn tier_view(r: Option<(Arc<SnapshotData>, SnapshotTier)>) -> Option<
    (SnapshotModel, SnapshotTier),
> {
    match r {
        None => None,
        Some((d, t)) => Some((d@, t)),
    }
}

/// The outcome of a lookup over both tiers: the memory tier's best match,
/// unless the disk tier answered with a longer one, which is then kept in
/// memory too.
pub open spec fn looked_up(
    m: StoreModel,
    model: (Seq<char>, u64),
    kv: KvConfigStamp,
    tokens: Seq<u32>,
    disk_hit: Option<SnapshotModel>,
    answer: Option<(SnapshotModel, SnapshotTier)>,
    after: StoreModel,
) -> bool {
    &&& after.disk == m.disk
    &&& exists|hit: Option<SnapshotModel>, mid: RamModel|
        {
            &&& #[trigger] served(m.ram, model, kv, tokens, hit, mid)
            &&& if m.disk is Some && disk_hit is Some && disk_hit->0.position > (match hit {
                None => 0u32,
                Some(h) => h.position,
            }) {
                &&& answer == Some((disk_hit->0, SnapshotTier::Disk))
                &&& after.ram == inserted(mid, model, kv, disk_hit->0)
            } else {
                &&& answer == (match hit {
                    None => None,
                    Some(h) => Some((h, SnapshotTier::Ram)),
                })
                &&& after.ram == mid
            }
        }
}

/// A lookup answers with the longest prefix there is: no snapshot in memory
/// that may be offered covers more, nor does the one that was found on disk;
/// where both cover the same the one in memory is taken. Where memory has one
/// to offer, there is an answer.
pub proof fn law_lookup_answers_with_the_longest_prefix(
    m: StoreModel,
    model: (Seq<char>, u64),
    kv: KvConfigStamp,
    tokens: Seq<u32>,
    disk_hit: Option<SnapshotModel>,
    answer: Option<(SnapshotModel, SnapshotTier)>,
    after: StoreModel,
    i: int,
)
    requires
        m.ram.valid(),
        looked_up(m, model, kv, tokens, disk_hit, answer, after),
        0 <= i < m.ram.all().len(),
        ram::offers(m.ram.all()[i], model, kv, tokens),
    ensures
        answer is Some,
        ({
            let (d, tier) = answer->0;
            let e = m.ram.all()[i];
            &&& e.data.position <= d.position
            &&& m.disk is Some && disk_hit is Some ==> disk_hit->0.position <= d.position
            &&& tier == SnapshotTier::Disk ==> disk_hit == Some(d) && e.data.position < d.position
            &&& tier == SnapshotTier::Ram ==> d.token_ids == tokens.take(d.position as int)
                && d.position < tokens.len()
        }),
{
    let (hit, mid) = choose|hit: Option<SnapshotModel>, mid: RamModel|
        {
            &&& #[trigger] served(m.ram, model, kv, tokens, hit, mid)
            &&& if m.disk is Some && disk_hit is Some && disk_hit->0.position > (match hit {
                None => 0u32,
                Some(h) => h.position,
            }) {
                &&& answer == Some((disk_hit->0, SnapshotTier::Disk))
                &&& after.ram == inserted(mid, model, kv, disk_hit->0)
            } else {
                &&& answer == (match hit {
                    None => None,
                    Some(h) => Some((h, SnapshotTier::Ram)),
                })
                &&& after.ram == mid
            }
        };
    assert(hit is Some);
    let j = choose|j: int|
        {
            &&& #[trigger] ram::best_offer(m.ram.all(), model, kv, tokens, j)
            &&& hit->0 == m.ram.all()[j].data
        };
    ram::lemma_all_keyed(m.ram, i);
    ram::lemma_all_keyed(m.ram, j);
}

/// With nothing in memory to offer, a lookup answers with what was found on
/// disk, and keeps it in memory from then on.
pub proof fn law_lookup_falls_back_to_the_disk(
    m: StoreModel,
    model: (Seq<char>, u64),
    kv: KvConfigStamp,
    tokens: Seq<u32>,
    disk_hit: Option<SnapshotModel>,
    answer: Option<(SnapshotModel, SnapshotTier)>,
    after: StoreModel,
)
    requires
        looked_up(m, model, kv, tokens, disk_hit, answer, after),
        forall|i: int|
            0 <= i < m.ram.all().len() ==> !ram::offers(
                #[trigger] m.ram.all()[i],
                model,
                kv,
                tokens,
            ),
    ensures
        after.disk == m.disk,
        answer is Some <==> m.disk is Some && disk_hit is Some && disk_hit->0.position > 0,
        answer matches Some((d, tier)) ==> {
            &&& disk_hit == Some(d)
            &&& tier == SnapshotTier::Disk
            &&& after.ram == inserted(m.ram, model, kv, d)
        },
        answer is None ==> after.ram == m.ram,
{
}

/// What the memory tier holds fits its budget, and nothing in it occurs
/// twice.
pub proof fn law_memory_tier_is_valid(s: &SnapshotStore)
    requires
        s.wf(),
    ensures
        s@.ram.valid(),
{
    ram::law_store_is_valid(&s.ram);
}

impl SnapshotStore {
    /// The memory tier's own invariant.
    pub closed spec fn wf(&self) -> bool {
        self.ram.wf()
    }

    /// A store with an empty memory tier over the given disk tier.
    pub fn new(ram_budget_bytes: usize, disk: Option<DiskStore>) -> (r: Self)
        ensures
            r.wf(),
            r@.ram == (RamModel {
                budget: ram_budget_bytes as nat,
                entries: Seq::empty(),
                pinned: None,
            }),
            r@.disk == (match disk {
                None => None,
                Some(d) => Some(d@),
            }),
    {
        SnapshotStore { ram: RamStore::new(ram_budget_bytes), disk }
    }

    /// Payload bytes held in memory.
    pub fn ram_used_bytes(&self) -> (r: usize)
        requires
            self.wf(),
        ensures
            r == self@.ram.used(),
    {
        self.ram.used_bytes()
    }

    /// Whether memory would keep a snapshot of that size beside the pinned
    /// one.
    pub fn would_keep(&self, bytes: usize) -> (r: bool)
        requires
            self.wf(),
        ensures
            r == (self@.ram.budget > 0 && self@.ram.pinned_bytes() + bytes <= self@.ram.budget),
    {
        self.ram.would_keep(bytes)
    }

    /// Whether memory would keep a snapshot of that size as the pinned one.
    pub fn would_keep_pinned(&self, bytes: usize) -> (r: bool)
        ensures
            r == (self@.ram.budget > 0 && bytes <= self@.ram.budget),
    {
        self.ram.would_keep_pinned(bytes)
    }

    /// Bytes held on disk; none without a disk tier.
    pub fn disk_used_bytes(&self) -> (r: u64)
        requires
            self@.disk matches Some(d) ==> disk_total(d.entries) <= u64::MAX,
        ensures
            r == (match self@.disk {
                None => 0,
                Some(d) => disk_total(d.entries),
            }),
    {
        match &self.disk {
            None => 0,
            Some(d) => d.used_bytes(),
        }
    }

    /// The disk tier, to persist its index.
    pub fn disk(&self) -> (r: Option<&DiskStore>)
        ensures
            r is Some <==> self@.disk is Some,
            r matches Some(d) ==> Some(d@) == self@.disk,
    {
        match &self.disk {
            None => None,
            Some(d) => Some(d),
        }
    }

    /// The disk file to read for a lookup, if any.
    pub fn disk_candidate(
        &self,
        model: &ModelStamp,
        kv: &KvConfigStamp,
        token_ids: &[u32],
    ) -> (r: Option<String>)
        ensures
            match r {
                None => self@.disk matches Some(d) ==> forall|i: int|
                    0 <= i < d.entries.len() ==> !disk_offers(
                        #[trigger] d.entries[i],
                        model@,
                        *kv,
                        token_ids@,
                    ),
                Some(name) => self@.disk is Some && exists|i: int|
                    #[trigger] disk_best(self@.disk->0.entries, model@, *kv, token_ids@, i)
                        && name@ == self@.disk->0.entries[i].file_name,
            },
            self@.disk matches Some(d) ==> match r {
                None => next_file(
                    d.entries,
                    (Wanted { model: model@, kv: *kv, tokens: token_ids@ }),
                ) is None,
                Some(name) => next_file(
                    d.entries,
                    (Wanted { model: model@, kv: *kv, tokens: token_ids@ }),
                ) == Some(name@),
            },
    {
        match &self.disk {
            None => None,
            Some(d) => {
                let r = d.find_best(model, kv, token_ids);
                assert(self@.disk->0.entries == d@.entries);
                r
            },
        }
    }

    /// Takes what was read from the file [`Self::disk_candidate`] named.
    pub fn disk_answer(&mut self, file_name: &str, contents: Option<&[u8]>) -> (r: Option<
        SnapshotData,
    >)
        requires
            old(self).wf(),
            old(self)@.disk is Some,
            old(self)@.disk->0.tick < u64::MAX,
        ensures
            final(self).wf(),
            final(self)@.ram == old(self)@.ram,
            match r {
                Some(d) => {
                    &&& contents is Some && file_holds(contents->0@, d@)
                    &&& final(self)@.disk == Some(disk_touched(old(self)@.disk->0, file_name@))
                },
                None => {
                    &&& contents matches Some(bytes) ==> forall|d: SnapshotModel|
                        !file_holds(bytes@, d)
                    &&& final(self)@.disk == Some(disk_forgotten(old(self)@.disk->0, file_name@))
                },
            },
            old(self)@.disk->0.orderly() ==> final(self)@.disk->0.orderly(),
    {
        match self.disk.take() {
            None => None,
            Some(mut d) => {
                let r = d.accept(file_name, contents);
                self.disk = Some(d);
                r
            },
        }
    }

    /// The longest exact-prefix match over both tiers and where it came
    /// from. `disk_hit` is what the disk tier answered; it wins when it is
    /// longer than the memory tier's match, and is then kept in memory.
    pub fn lookup_with_tier(
        &mut self,
        model: &ModelStamp,
        kv: &KvConfigStamp,
        token_ids: &[u32],
        disk_hit: Option<SnapshotData>,
    ) -> (r: Option<(Arc<SnapshotData>, SnapshotTier)>)
        requires
            old(self).wf(),
            disk_hit matches Some(d) ==> d@.byte_size() <= usize::MAX,
        ensures
            final(self).wf(),
            looked_up(
                old(self)@,
                model@,
                *kv,
                token_ids@,
                owned_view(disk_hit),
                tier_view(r),
                final(self)@,
            ),
    {
        let ram_hit = self.ram.find_best(model, kv, token_ids);
        let ghost hit = shared_view(ram_hit);
        let ghost mid = self.ram@;
        assert(served(old(self)@.ram, model@, *kv, token_ids@, hit, mid));
        let ram_pos: u32 = match &ram_hit {
            None => 0,
            Some(d) => d.position,
        };
        if self.disk.is_some() {
            if let Some(data) = disk_hit {
                if data.position > ram_pos {
                    let shared = Arc::new(data);
                    self.ram.insert_shared(model.clone(), *kv, ram::share(&shared));
                    return Some((shared, SnapshotTier::Disk));
                }
            }
        }
        match ram_hit {
            None => None,
            Some(d) => Some((d, SnapshotTier::Ram)),
        }
    }

    /// [`Self::lookup_with_tier`] without the tier.
    pub fn lookup(
        &mut self,
        model: &ModelStamp,
        kv: &KvConfigStamp,
        token_ids: &[u32],
        disk_hit: Option<SnapshotData>,
    ) -> (r: Option<Arc<SnapshotData>>)
        requires
            old(self).wf(),
            disk_hit matches Some(d) ==> d@.byte_size() <= usize::MAX,
        ensures
            final(self).wf(),
            exists|answer: Option<(SnapshotModel, SnapshotTier)>|
                {
                    &&& #[trigger] looked_up(
                        old(self)@,
                        model@,
                        *kv,
                        token_ids@,
                        owned_view(disk_hit),
                        answer,
                        final(self)@,
                    )
                    &&& shared_view(r) == (match answer {
                        None => None,
                        Some((d, _)) => Some(d),
                    })
                },
    {
        match self.lookup_with_tier(model, kv, token_ids, disk_hit) {
            None => None,
            Some((d, _)) => Some(d),
        }
    }

    /// Stores a snapshot in memory and returns the file to write for the disk
    /// tier, where there is one and it takes it.
    pub fn insert(&mut self, model: ModelStamp, kv: KvConfigStamp, data: SnapshotData) -> (r:
        Option<PendingWrite>)
        requires
            old(self).wf(),
            data@.byte_size() <= usize::MAX,
        ensures
            final(self).wf(),
            final(self)@.disk == old(self)@.disk,
            final(self)@.ram == inserted(old(self)@.ram, model@, kv, data@),
            r is Some <==> {
                &&& old(self)@.disk is Some
                &&& old(self)@.disk->0.budget != 0
                &&& framed(encoded(data@)).len() <= old(self)@.disk->0.budget
            },
            r matches Some(p) ==> p.contents@ == framed(encoded(data@)) && p.entry@ == record_for(
                model@,
                kv,
                data@,
            ),
    {
        let pending = match &self.disk {
            None => None,
            Some(d) => d.prepare_insert(&model, &kv, &data),
        };
        self.ram.insert(model, kv, data);
        pending
    }

    /// Stores a snapshot in memory as the pinned one, and returns the file to
    /// write for the disk tier, where there is one and it takes it.
    pub fn insert_pinned(
        &mut self,
        model: ModelStamp,
        kv: KvConfigStamp,
        data: SnapshotData,
    ) -> (r: Option<PendingWrite>)
        requires
            old(self).wf(),
            data@.byte_size() <= usize::MAX,
        ensures
            final(self).wf(),
            final(self)@.disk == old(self)@.disk,
            final(self)@.ram == pinned_inserted(old(self)@.ram, model@, kv, data@),
            r is Some <==> {
                &&& old(self)@.disk is Some
                &&& old(self)@.disk->0.budget != 0
                &&& framed(encoded(data@)).len() <= old(self)@.disk->0.budget
            },
            r matches Some(p) ==> p.contents@ == framed(encoded(data@)) && p.entry@ == record_for(
                model@,
                kv,
                data@,
            ),
    {
        let pending = match &self.disk {
            None => None,
            Some(d) => d.prepare_insert(&model, &kv, &data),
        };
        self.ram.insert_pinned(model, kv, data);
        pending
    }

    /// Records a file that was written; returns the files to delete.
    pub fn written(&mut self, pending: PendingWrite) -> (gone: Vec<String>)
        requires
            old(self).wf(),
            old(self)@.disk is Some,
            disk_total(old(self)@.disk->0.entries) + pending.entry.byte_size <= u64::MAX,
            old(self)@.disk->0.tick < u64::MAX,
        ensures
            final(self).wf(),
            final(self)@.ram == old(self)@.ram,
            final(self)@.disk is Some,
            (final(self)@.disk->0, names(gone@)) == disk_inserted(
                old(self)@.disk->0,
                pending.entry@,
            ),
            disk_total(final(self)@.disk->0.entries) <= final(self)@.disk->0.budget,
            old(self)@.disk->0.orderly() ==> final(self)@.disk->0.orderly(),
    {
        match self.disk.take() {
            None => Vec::new(),
            Some(mut d) => {
                let gone = d.insert(pending);
                self.disk = Some(d);
                gone
            },
        }
    }
}

} // verus!
