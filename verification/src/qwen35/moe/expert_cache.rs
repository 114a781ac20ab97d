//! The device-resident cache of routed-expert weights: which slot of the
//! three byte pools an expert occupies, whether its bytes must be copied in,
//! and how copies are pipelined with compute during decode.

use super::expert_lru::{assigned, ExpertKey, ExpertLru, LruModel};
use vstd::prelude::*;

verus! {

/// Device memory left unused when the cache is sized from what is free.
pub const EXPERT_CACHE_SAFETY_MARGIN_BYTES: usize = 536_870_912;

/// Byte offsets of one slot in each of the three pools.
#[derive(Debug, Clone, Copy, PartialEq, Eq, Structural)]
pub struct SlotOffsets {
    pub gate: usize,
    pub up: usize,
    pub down: usize,
}

/// Where an expert's weights are, and whether they must be copied there
/// first.
#[derive(Debug, Clone, Copy, PartialEq, Eq, Structural)]
pub struct Placement {
    pub slot: usize,
    pub hit: bool,
    pub offsets: SlotOffsets,
}

/// The cache's bookkeeping.
pub struct ExpertCache {
    lru: ExpertLru,
    gate_stride: usize,
    up_stride: usize,
    down_stride: usize,
    hits: u64,
    misses: u64,
    overlap: bool,
}

/// What the cache knows.
#[verifier::ext_equal]
pub struct CacheModel {
    pub lru: LruModel,
    pub gate_stride: nat,
    pub up_stride: nat,
    pub down_stride: nat,
    pub hits: u64,
    pub misses: u64,
    pub overlap: bool,
}

impl CacheModel {
    /// The pools can be addressed.
    pub open spec fn valid(self) -> bool {
        &&& self.lru.valid()
        &&& self.lru.capacity * self.gate_stride <= usize::MAX
        &&& self.lru.capacity * self.up_stride <= usize::MAX
        &&& self.lru.capacity * self.down_stride <= usize::MAX
    }

    /// Copies are pipelined with compute: that was asked for, and there is a
    /// slot to copy to besides the one that is being read.
    pub open spec fn pipelines(self) -> bool {
        self.overlap && self.lru.capacity >= 2
    }

    /// The same cache with nothing in it.
    pub open spec fn emptied(self) -> CacheModel {
        CacheModel { lru: LruModel { entries: Seq::empty(), ..self.lru }, ..self }
    }

    /// Where a slot starts in each pool.
    pub open spec fn offsets(self, slot: nat) -> SlotOffsets {
        SlotOffsets {
            gate: (slot * self.gate_stride) as usize,
            up: (slot * self.up_stride) as usize,
            down: (slot * self.down_stride) as usize,
        }
    }
}

impl View for ExpertCache {
    type V = CacheModel;

    closed spec fn view(&self) -> CacheModel {
        CacheModel {
            lru: self.lru@,
            gate_stride: self.gate_stride as nat,
            up_stride: self.up_stride as nat,
            down_stride: self.down_stride as nat,
            hits: self.hits,
            misses: self.misses,
            overlap: self.overlap,
        }
    }
}

/// What reserving a slot for a key does.
pub open spec fn reserved(
    m: CacheModel,
    key: ExpertKey,
    slot: usize,
    hit: bool,
    after: CacheModel,
) -> bool {
    &&& assigned(m.lru, key, slot, hit, after.lru)
    &&& after == CacheModel {
        lru: after.lru,
        hits: if hit {
            (m.hits + 1) as u64
        } else {
            m.hits
        },
        misses: if hit {
            m.misses
        } else {
            (m.misses + 1) as u64
        },
        ..m
    }
}

/// Distinct slots occupy disjoint parts of a pool, all of them inside it.
pub proof fn law_slots_are_disjoint(capacity: nat, stride: nat, a: nat, b: nat)
    requires
        a < b < capacity,
    ensures
        a * stride + stride <= b * stride,
        b * stride + stride <= capacity * stride,
{
    assert(a * stride + stride <= b * stride) by (nonlinear_arith)
        requires
            a + 1 <= b,
    ;
    assert(b * stride + stride <= capacity * stride) by (nonlinear_arith)
        requires
            b + 1 <= capacity,
    ;
}

/// How many slots the cache gets: none without bytes or experts to cache,
/// else as many as the free memory (less a safety margin) holds, never more
/// than there are experts nor than the caller allows.
pub open spec fn slots_for(
    free: nat,
    bytes_per_slot: nat,
    total_experts: nat,
    limit: Option<usize>,
) -> nat {
    if bytes_per_slot == 0 || total_experts == 0 {
        0
    } else {
        let usable: nat = if free <= EXPERT_CACHE_SAFETY_MARGIN_BYTES {
            0
        } else {
            (free - EXPERT_CACHE_SAFETY_MARGIN_BYTES) as nat
        };
        let by_memory = usable / bytes_per_slot;
        let by_caller = match limit {
            None => usize::MAX as nat,
            Some(n) => n as nat,
        };
        let least = if by_caller < by_memory {
            by_caller
        } else {
            by_memory
        };
        if least < total_experts {
            least
        } else {
            total_experts
        }
    }
}

/// The number of slots to allocate.
pub fn cache_capacity(
    free: usize,
    bytes_per_slot: usize,
    total_experts: usize,
    limit: Option<usize>,
) -> (r: usize)
    ensures
        r == slots_for(free as nat, bytes_per_slot as nat, total_experts as nat, limit),
{
    if bytes_per_slot == 0 || total_experts == 0 {
        return 0;
    }
    let usable: usize = free.saturating_sub(EXPERT_CACHE_SAFETY_MARGIN_BYTES);
    let by_memory: usize = usable / bytes_per_slot;
    let by_caller: usize = match limit {
        None => usize::MAX,
        Some(n) => n,
    };
    let least: usize = if by_caller < by_memory {
        by_caller
    } else {
        by_memory
    };
    if least < total_experts {
        least
    } else {
        total_experts
    }
}

/// The slots fit the memory that was free, the safety margin left aside.
pub proof fn law_cache_fits_free_memory(
    free: nat,
    bytes_per_slot: nat,
    total_experts: nat,
    limit: Option<usize>,
)
    ensures
        slots_for(free, bytes_per_slot, total_experts, limit) > 0 ==> slots_for(
            free,
            bytes_per_slot,
            total_experts,
            limit,
        ) * bytes_per_slot + EXPERT_CACHE_SAFETY_MARGIN_BYTES <= free,
        slots_for(free, bytes_per_slot, total_experts, limit) <= total_experts,
{
    let n = slots_for(free, bytes_per_slot, total_experts, limit);
    if n > 0 {
        let usable: nat = if free <= EXPERT_CACHE_SAFETY_MARGIN_BYTES {
            0
        } else {
            (free - EXPERT_CACHE_SAFETY_MARGIN_BYTES) as nat
        };
        assert(n <= usable / bytes_per_slot);
        assert(n * bytes_per_slot <= usable) by (nonlinear_arith)
            requires
                n <= usable / bytes_per_slot,
                bytes_per_slot > 0,
        ;
        if free <= EXPERT_CACHE_SAFETY_MARGIN_BYTES {
            assert(usable / bytes_per_slot == 0) by (nonlinear_arith)
                requires
                    usable == 0,
                    bytes_per_slot > 0,
            ;
        }
    }
}

/// A cache never holds an expert twice, nor more experts than it has slots.
pub proof fn law_expert_cache_is_valid(c: &ExpertCache)
    requires
        c.wf(),
    ensures
        c@.valid(),
{
}

impl ExpertCache {
    /// The slot bookkeeping is consistent.
    pub closed spec fn wf(&self) -> bool {
        self.lru.wf() && self@.valid()
    }

    /// A cache of `capacity` slots, or none at all for zero slots.
    pub fn new(
        capacity: usize,
        gate_stride: usize,
        up_stride: usize,
        down_stride: usize,
        overlap: bool,
    ) -> (r: Option<Self>)
        requires
            capacity <= usize::MAX / 256,
            capacity * gate_stride <= usize::MAX,
            capacity * up_stride <= usize::MAX,
            capacity * down_stride <= usize::MAX,
        ensures
            r is None <==> capacity == 0,
            r matches Some(c) ==> c.wf() && c@ == (CacheModel {
                lru: LruModel { capacity: capacity as nat, entries: Seq::empty() },
                gate_stride: gate_stride as nat,
                up_stride: up_stride as nat,
                down_stride: down_stride as nat,
                hits: 0,
                misses: 0,
                overlap,
            }),
    {
        if capacity == 0 {
            return None;
        }
        let c = ExpertCache {
            lru: ExpertLru::new(capacity),
            gate_stride,
            up_stride,
            down_stride,
            hits: 0,
            misses: 0,
            overlap,
        };
        Some(c)
    }

    /// Number of slots.
    pub fn capacity(&self) -> (r: usize)
        ensures
            r == self@.lru.capacity,
    {
        self.lru.capacity()
    }

    /// Slots that hold an expert.
    pub fn occupancy(&self) -> (r: usize)
        ensures
            r == self@.lru.entries.len(),
    {
        self.lru.occupancy()
    }

    /// Hits and misses so far.
    pub fn stats(&self) -> (r: (u64, u64))
        ensures
            r == (self@.hits, self@.misses),
    {
        (self.hits, self.misses)
    }

    /// Whether copies were to be pipelined with compute.
    pub fn overlap_enabled(&self) -> (r: bool)
        ensures
            r == self@.overlap,
    {
        self.overlap
    }

    /// Whether copies are pipelined with compute.
    pub fn pipelines(&self) -> (r: bool)
        ensures
            r == self@.pipelines(),
    {
        self.overlap && self.lru.capacity() >= 2
    }

    /// Forgets every expert. The counters stay.
    pub fn forget_all(&mut self)
        requires
            old(self).wf(),
        ensures
            final(self).wf(),
            final(self)@ == old(self)@.emptied(),
    {
        self.lru.clear();
    }

    /// Byte lengths of the three pools.
    pub fn pool_lens(&self) -> (r: SlotOffsets)
        requires
            self.wf(),
        ensures
            r == self@.offsets(self@.lru.capacity),
    {
        let n: usize = self.lru.capacity();
        SlotOffsets {
            gate: n * self.gate_stride,
            up: n * self.up_stride,
            down: n * self.down_stride,
        }
    }

    /// Gives `key` a slot and counts the hit or miss, without copying.
    pub fn reserve(&mut self, key: ExpertKey) -> (r: (usize, bool))
        requires
            old(self).wf(),
            old(self)@.hits < u64::MAX,
            old(self)@.misses < u64::MAX,
        ensures
            final(self).wf(),
            r.0 < final(self)@.lru.capacity,
            reserved(old(self)@, key, r.0, r.1, final(self)@),
    {
        let (slot, hit) = self.lru.get_or_insert(key);
        if hit {
            self.hits = self.hits + 1;
        } else {
            self.misses = self.misses + 1;
        }
        (slot, hit)
    }

    /// Where a slot starts in each pool.
    pub fn slot_offsets(&self, slot: usize) -> (r: SlotOffsets)
        requires
            self.wf(),
            slot < self@.lru.capacity,
        ensures
            r == self@.offsets(slot as nat),
    {
        proof {
            let c = self@.lru.capacity;
            lemma_mul_le(slot as nat, c, self@.gate_stride);
            lemma_mul_le(slot as nat, c, self@.up_stride);
            lemma_mul_le(slot as nat, c, self@.down_stride);
        }
        SlotOffsets {
            gate: slot * self.gate_stride,
            up: slot * self.up_stride,
            down: slot * self.down_stride,
        }
    }

    /// Makes sure `key` has a slot; on a miss its bytes are to be copied to
    /// the offsets before they are read.
    pub fn ensure_loaded(&mut self, key: ExpertKey) -> (r: Placement)
        requires
            old(self).wf(),
            old(self)@.hits < u64::MAX,
            old(self)@.misses < u64::MAX,
        ensures
            final(self).wf(),
            r.slot < final(self)@.lru.capacity,
            reserved(old(self)@, key, r.slot, r.hit, final(self)@),
            r.offsets == final(self)@.offsets(r.slot as nat),
    {
        let (slot, hit) = self.reserve(key);
        Placement { slot, hit, offsets: self.slot_offsets(slot) }
    }
}

proof fn lemma_mul_le(a: nat, b: nat, k: nat)
    requires
        a <= b,
    ensures
        a * k <= b * k,
{
    assert(a * k <= b * k) by (nonlinear_arith)
        requires
            a <= b,
    ;
}

} // verus!
