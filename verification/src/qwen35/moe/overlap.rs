//! Decode-time pipelining: while expert `k` computes, the bytes of expert
//! `k + 1` are already being copied on a second stream.

use super::expert_cache::{reserved, CacheModel, ExpertCache, Placement};
use super::expert_lru::{absent, present_at, ExpertKey};
use super::route::{resolve_experts, routes};
use crate::error::ConfigError;
use vstd::prelude::*;

verus! {

/// One step of the pipelined loop, in issue order.
#[derive(Debug, Clone, Copy, PartialEq, Eq, Structural)]
pub enum OverlapStep {
    /// Copy the first expert's bytes into its slot and wait for them.
    CopyNow { k: usize },
    /// Start copying expert `k`'s bytes on the copy stream, ordered after
    /// every compute marked done so far.
    StartCopy { k: usize },
    /// Issue expert `k`'s kernels, which read its slot.
    Compute { k: usize },
    /// Mark every kernel issued so far.
    MarkComputeDone,
    /// Order what follows after the copy that was started last.
    WaitCopy,
}

/// The experts of one token, where they are, and the order of work.
#[derive(Debug)]
pub struct OverlapPlan {
    pub experts: Vec<u32>,
    pub placements: Vec<Placement>,
    pub steps: Vec<OverlapStep>,
}

/// Reserving a slot for each key in turn.
pub open spec fn reserved_all(
    m: CacheModel,
    keys: Seq<ExpertKey>,
    placements: Seq<Placement>,
    after: CacheModel,
) -> bool
    decreases keys.len(),
{
    if keys.len() == 0 {
        placements.len() == 0 && after == m
    } else {
        &&& placements.len() == keys.len()
        &&& placements.last().offsets == after.offsets(placements.last().slot as nat)
        &&& exists|mid: CacheModel|
            {
                &&& reserved_all(m, keys.drop_last(), placements.drop_last(), mid)
                &&& #[trigger] reserved(
                    mid,
                    keys.last(),
                    placements.last().slot,
                    placements.last().hit,
                    after,
                )
            }
    }
}

/// The steps of the first `k` experts, the lookahead of each one done. Expert
/// `k`'s own slot has been reserved before its predecessor computes.
pub open spec fn overlap_steps(p: Seq<Placement>, k: nat) -> Seq<OverlapStep>
    decreases k,
{
    if k == 0 {
        if p.len() > 0 && !p[0].hit {
            seq![OverlapStep::CopyNow { k: 0 }]
        } else {
            Seq::empty()
        }
    } else {
        let ahead = k < p.len() && !p[k as int].hit;
        overlap_steps(p, (k - 1) as nat) + (if ahead {
            seq![OverlapStep::StartCopy { k: k as usize }]
        } else {
            Seq::empty()
        }) + seq![OverlapStep::Compute { k: (k - 1) as usize }, OverlapStep::MarkComputeDone] + (
        if ahead {
            seq![OverlapStep::WaitCopy]
        } else {
            Seq::empty()
        })
    }
}

/// The cache keys of a layer's selected experts.
pub open spec fn keys_of(layer_idx: u32, experts: Seq<u32>) -> Seq<ExpertKey> {
    experts.map_values(|e: u32| (layer_idx, e))
}

/// Reserves a slot for each of a layer's experts in turn.
pub fn place_experts(cache: &mut ExpertCache, layer_idx: u32, experts: &Vec<u32>) -> (r: Vec<
    Placement,
>)
    requires
        old(cache).wf(),
        old(cache)@.hits + experts@.len() <= u64::MAX,
        old(cache)@.misses + experts@.len() <= u64::MAX,
    ensures
        final(cache).wf(),
        r@.len() == experts@.len(),
        reserved_all(old(cache)@, keys_of(layer_idx, experts@), r@, final(cache)@),
{
    let ghost keys = keys_of(layer_idx, experts@);
    let ghost start = cache@;
    let mut placements: Vec<Placement> = Vec::new();
    let mut i: usize = 0;
    proof {
        assert(keys.take(0) =~= Seq::empty());
        assert(reserved_all(start, keys.take(0), placements@, cache@));
    }
    while i < experts.len()
        invariant
            cache.wf(),
            i <= experts@.len(),
            keys == keys_of(layer_idx, experts@),
            placements@.len() == i,
            start == old(cache)@,
            start.hits + experts@.len() <= u64::MAX,
            start.misses + experts@.len() <= u64::MAX,
            cache@.hits <= start.hits + i,
            cache@.misses <= start.misses + i,
            reserved_all(start, keys.take(i as int), placements@, cache@),
        decreases experts@.len() - i,
    {
        let ghost mid = cache@;
        let ghost before = placements@;
        let p = cache.ensure_loaded((layer_idx, experts[i]));
        placements.push(p);
        proof {
            let ks = keys.take(i + 1);
            assert(ks.drop_last() =~= keys.take(i as int));
            assert(ks.last() == (layer_idx, experts@[i as int]));
            assert(placements@.drop_last() =~= before);
            assert(placements@.last() == p);
            assert(reserved(mid, ks.last(), p.slot, p.hit, cache@));
            assert(reserved_all(start, ks.drop_last(), placements@.drop_last(), mid));
            assert(reserved_all(start, ks, placements@, cache@));
        }
        i = i + 1;
    }
    proof {
        assert(keys.take(i as int) =~= keys);
    }
    placements
}

/// Plans one token's routed experts with copies pipelined one ahead, into a
/// slot other than the one that is being read.
pub fn routed_experts_overlap(
    cache: &mut ExpertCache,
    layer_idx: u32,
    idx_host: &[i32],
    expert_count: u32,
) -> (r: Result<OverlapPlan, ConfigError>)
    requires
        old(cache).wf(),
        old(cache)@.lru.capacity >= 2,
        idx_host@.len() > 0,
        old(cache)@.hits + idx_host@.len() <= u64::MAX,
        old(cache)@.misses + idx_host@.len() <= u64::MAX,
    ensures
        final(cache).wf(),
        match r {
            Err(e) => {
                &&& routes(idx_host@, expert_count, Err(e))
                &&& final(cache)@ == old(cache)@
            },
            Ok(plan) => {
                &&& routes(idx_host@, expert_count, Ok(plan.experts@))
                &&& plan.placements@.len() == plan.experts@.len()
                &&& reserved_all(
                    old(cache)@,
                    keys_of(layer_idx, plan.experts@),
                    plan.placements@,
                    final(cache)@,
                )
                &&& plan.steps@ == overlap_steps(plan.placements@, plan.experts@.len())
            },
        },
{
    let experts = match resolve_experts(idx_host, expert_count) {
        Ok(v) => v,
        Err(e) => {
            return Err(e);
        },
    };
    let placements = place_experts(cache, layer_idx, &experts);
    let mut steps: Vec<OverlapStep> = Vec::new();
    if !placements[0].hit {
        steps.push(OverlapStep::CopyNow { k: 0 });
    }
    let mut k: usize = 0;
    proof {
        assert(steps@ =~= overlap_steps(placements@, 0));
    }
    while k < experts.len()
        invariant
            k <= experts@.len(),
            placements@.len() == experts@.len(),
            steps@ == overlap_steps(placements@, k as nat),
        decreases experts@.len() - k,
    {
        let ghost before = steps@;
        let ahead: bool = k + 1 < experts.len() && !placements[k + 1].hit;
        if ahead {
            steps.push(OverlapStep::StartCopy { k: k + 1 });
        }
        steps.push(OverlapStep::Compute { k });
        steps.push(OverlapStep::MarkComputeDone);
        if ahead {
            steps.push(OverlapStep::WaitCopy);
        }
        k = k + 1;
        proof {
            assert(steps@ =~= overlap_steps(placements@, k as nat));
        }
    }
    Ok(OverlapPlan { experts, placements, steps })
}

/// A lookahead copy never writes the slot that the expert being computed is
/// reading, as long as the cache has at least two slots.
pub proof fn law_lookahead_spares_the_slot_in_use(
    m: CacheModel,
    key: ExpertKey,
    slot: usize,
    hit: bool,
    mid: CacheModel,
    next_key: ExpertKey,
    next_slot: usize,
    after: CacheModel,
)
    requires
        m.lru.valid(),
        m.lru.capacity >= 2,
        m.lru.capacity <= usize::MAX,
        reserved(m, key, slot, hit, mid),
        reserved(mid, next_key, next_slot, false, after),
    ensures
        next_slot != slot,
{
    let s = m.lru.entries;
    if !absent(s, key) {
        let i = choose|i: int| 0 <= i < s.len() && (#[trigger] s[i]).0 == key;
        assert(present_at(s, key, i));
    }
    let t = mid.lru.entries;
    assert(t[0] == (key, slot));
    super::expert_lru::lemma_assigned_valid(m.lru, key, slot, hit, mid.lru);
    if t.len() < mid.lru.capacity {
        assert(t[0].1 < t.len());
    } else {
        assert(t[0].1 != t[t.len() - 1].1);
    }
}

} // verus!
