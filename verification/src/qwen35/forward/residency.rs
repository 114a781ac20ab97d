//! Which expert's bytes are where while a plan runs. Whatever was evicted or
//! copied ahead, every expert that computes reads its own bytes.

use super::moe::{
    cached, cached_ops, expert_ops, is_routed_plan, moe_add_ops, overlap_ops, overlap_step_ops,
    staged, staged_ops, start_upload_ops, upload_ops, ExpertAt, RoutedPlan,
};
use super::moe_chunk::{
    chunk_moe_add_ops, fetch_ops, gather_ops, group_ops, is_routed_chunk_plan, routed_chunk_ops,
    source, RoutedChunkPlan,
};
use super::plan::{At, Buf, ExpertPart, Op};
use crate::qwen35::config::{ConfigModel, MoeConfig};
use crate::qwen35::moe::expert_cache::{reserved, CacheModel, Placement};
use crate::qwen35::moe::expert_lru::{lemma_assigned_valid, present_at, ExpertKey};
use crate::qwen35::moe::overlap::{
    keys_of, law_lookahead_spares_the_slot_in_use, overlap_steps, reserved_all, OverlapStep,
};
use crate::qwen35::moe::route::Assignment;
use vstd::prelude::*;

verus! {

/// One matrix of an expert.
pub type Matrix = (ExpertPart, ExpertKey);

/// The device's expert memory while a plan runs.
#[verifier::ext_equal]
pub struct Residency {
    /// The matrix whose bytes are whole at a place.
    pub held: Map<At, Matrix>,
    /// Copies that were started and not waited for.
    pub flying: Seq<(At, Matrix)>,
    /// Places read by kernels that are not marked done.
    pub busy: Set<At>,
    /// No copy was started to a place that a kernel may still be reading.
    pub safe: bool,
    /// What the experts' kernels asked for and found, in order.
    pub read: Seq<(ExpertPart, Option<Matrix>)>,
}

/// Memory after copies have arrived.
pub open spec fn landed(held: Map<At, Matrix>, flying: Seq<(At, Matrix)>) -> Map<At, Matrix>
    decreases flying.len(),
{
    if flying.len() == 0 {
        held
    } else {
        landed(held, flying.drop_last()).insert(flying.last().0, flying.last().1)
    }
}

impl Residency {
    /// A kernel reads a matrix.
    pub open spec fn reads(self, part: ExpertPart, w: At) -> Self {
        Residency {
            busy: self.busy.insert(w),
            read: self.read.push(
                (
                    part,
                    if self.held.contains_key(w) {
                        Some(self.held[w])
                    } else {
                        None
                    },
                ),
            ),
            ..self
        }
    }

    /// What an operation of a layer does to it.
    pub open spec fn after(self, layer: u32, op: Op) -> Self {
        match op {
            Op::UploadExpert { part, dst, expert } => Residency {
                held: self.held.insert(dst, (part, (layer, expert))),
                ..self
            },
            Op::StartUploadExpert { part, dst, expert } => Residency {
                held: self.held.remove(dst),
                flying: self.flying.push((dst, (part, (layer, expert)))),
                safe: self.safe && !self.busy.contains(dst),
                ..self
            },
            Op::MarkComputeDone => Residency { busy: Set::empty(), ..self },
            Op::WaitUpload => Residency {
                held: landed(self.held, self.flying),
                flying: Seq::empty(),
                ..self
            },
            Op::GemvQuant { part, w, .. } => self.reads(part, w),
            Op::GemmQuant { part, w, .. } => self.reads(part, w),
            _ => self,
        }
    }

    /// What a run of operations of a layer does to it.
    pub open spec fn after_all(self, layer: u32, ops: Seq<Op>) -> Self
        decreases ops.len(),
    {
        if ops.len() == 0 {
            self
        } else {
            self.after_all(layer, ops.drop_last()).after(layer, ops.last())
        }
    }

    /// An expert's three matrices are whole at a place.
    pub open spec fn whole(self, at: ExpertAt, key: ExpertKey) -> bool {
        &&& self.held.contains_key(at.gate) && self.held[at.gate] == (ExpertPart::Gate, key)
        &&& self.held.contains_key(at.up) && self.held[at.up] == (ExpertPart::Up, key)
        &&& self.held.contains_key(at.down) && self.held[at.down] == (ExpertPart::Down, key)
    }

    /// Every expert that a cache knows is in its slot.
    pub open spec fn agrees(self, m: CacheModel) -> bool {
        forall|i: int|
            0 <= i < m.lru.entries.len() ==> self.whole(
                slot_at(m, (#[trigger] m.lru.entries[i]).1),
                m.lru.entries[i].0,
            )
    }

    /// Nothing is under way: every copy has arrived, and every kernel that
    /// reads an expert is done.
    pub open spec fn at_rest(self) -> bool {
        self.flying.len() == 0 && self.busy == Set::<At>::empty() && self.safe
    }

    /// Memory after an expert's matrices were copied to a place.
    pub open spec fn with(self, at: ExpertAt, key: ExpertKey) -> Self {
        Residency {
            held: self.held.insert(at.gate, (ExpertPart::Gate, key)).insert(
                at.up,
                (ExpertPart::Up, key),
            ).insert(at.down, (ExpertPart::Down, key)),
            ..self
        }
    }

    /// Memory after an expert's kernels have found its matrices at a place.
    pub open spec fn used(self, at: ExpertAt, key: ExpertKey) -> Self {
        Residency {
            busy: self.busy.insert(at.gate).insert(at.up).insert(at.down),
            read: self.read + found(key),
            ..self
        }
    }
}

/// Where a slot's matrices are.
pub open spec fn slot_at(m: CacheModel, slot: usize) -> ExpertAt {
    let o = m.offsets(slot as nat);
    ExpertAt {
        gate: At { buf: Buf::PoolGate, offset: o.gate },
        up: At { buf: Buf::PoolUp, offset: o.up },
        down: At { buf: Buf::PoolDown, offset: o.down },
    }
}

/// What an expert's kernels find when every one reads its own matrix.
pub open spec fn found(key: ExpertKey) -> Seq<(ExpertPart, Option<Matrix>)> {
    seq![
        (ExpertPart::Gate, Some((ExpertPart::Gate, key))),
        (ExpertPart::Up, Some((ExpertPart::Up, key))),
        (ExpertPart::Down, Some((ExpertPart::Down, key))),
    ]
}

/// What the kernels of the first `k` experts find when every one reads its
/// own matrix.
pub open spec fn found_all(layer: u32, experts: Seq<u32>, k: nat) -> Seq<
    (ExpertPart, Option<Matrix>),
>
    decreases k,
{
    if k == 0 {
        Seq::empty()
    } else {
        found_all(layer, experts, (k - 1) as nat) + found((layer, experts[k - 1]))
    }
}

/// Operations in two runs are the operations in one.
pub proof fn lemma_after_concat(r: Residency, layer: u32, a: Seq<Op>, b: Seq<Op>)
    ensures
        r.after_all(layer, a + b) == r.after_all(layer, a).after_all(layer, b),
    decreases b.len(),
{
    if b.len() == 0 {
        assert(a + b =~= a);
    } else {
        lemma_after_concat(r, layer, a, b.drop_last());
        assert((a + b).drop_last() =~= a + b.drop_last());
        assert((a + b).last() == b.last());
    }
}

pub proof fn lemma_after_push(r: Residency, layer: u32, a: Seq<Op>, op: Op)
    ensures
        r.after_all(layer, a.push(op)) == r.after_all(layer, a).after(layer, op),
{
    assert(a.push(op).drop_last() =~= a);
    assert(a.push(op).last() == op);
}

/// Operations that neither move nor read an expert.
proof fn lemma_after_others(r: Residency, layer: u32, ops: Seq<Op>)
    requires
        forall|i: int| 0 <= i < ops.len() ==> r.after(layer, #[trigger] ops[i]) == r,
    ensures
        r.after_all(layer, ops) == r,
    decreases ops.len(),
{
    if ops.len() > 0 {
        let front = ops.drop_last();
        assert forall|i: int| 0 <= i < front.len() implies r.after(layer, #[trigger] front[i])
            == r by {
            assert(front[i] == ops[i]);
        }
        lemma_after_others(r, layer, front);
        assert(r.after(layer, ops[ops.len() - 1]) == r);
    }
}

pub proof fn lemma_upload(r: Residency, layer: u32, at: ExpertAt, expert: u32)
    ensures
        r.after_all(layer, upload_ops(at, expert)) == r.with(at, (layer, expert)),
{
    let ops = upload_ops(at, expert);
    let none = Seq::<Op>::empty();
    let one = none.push(ops[0]);
    let two = one.push(ops[1]);
    lemma_after_push(r, layer, none, ops[0]);
    lemma_after_push(r, layer, one, ops[1]);
    lemma_after_push(r, layer, two, ops[2]);
    assert(two.push(ops[2]) =~= ops);
}

/// An expert's kernels find what is at its place.
proof fn lemma_expert(
    r: Residency,
    layer: u32,
    c: ConfigModel,
    m: MoeConfig,
    at: ExpertAt,
    k: int,
    key: ExpertKey,
)
    requires
        r.whole(at, key),
    ensures
        r.after_all(layer, expert_ops(c, m, at, k)) == r.used(at, key),
{
    let ops = expert_ops(c, m, at, k);
    let none = Seq::<Op>::empty();
    let s1 = none.push(ops[0]);
    let s2 = s1.push(ops[1]);
    let s3 = s2.push(ops[2]);
    let s4 = s3.push(ops[3]);
    lemma_after_push(r, layer, none, ops[0]);
    lemma_after_push(r, layer, s1, ops[1]);
    lemma_after_push(r, layer, s2, ops[2]);
    lemma_after_push(r, layer, s3, ops[3]);
    lemma_after_push(r, layer, s4, ops[4]);
    assert(s4.push(ops[4]) =~= ops);
    assert(r.after_all(layer, ops) =~= r.used(at, key));
}

/// A group's kernels find what is at its expert's place.
proof fn lemma_group(
    r: Residency,
    layer: u32,
    c: ConfigModel,
    m: MoeConfig,
    at: ExpertAt,
    rows: u32,
    key: ExpertKey,
)
    requires
        r.whole(at, key),
    ensures
        r.after_all(layer, group_ops(c, m, at, rows)) == r.used(at, key),
{
    let ops = group_ops(c, m, at, rows);
    let none = Seq::<Op>::empty();
    let s1 = none.push(ops[0]);
    let s2 = s1.push(ops[1]);
    let s3 = s2.push(ops[2]);
    let s4 = s3.push(ops[3]);
    lemma_after_push(r, layer, none, ops[0]);
    lemma_after_push(r, layer, s1, ops[1]);
    lemma_after_push(r, layer, s2, ops[2]);
    lemma_after_push(r, layer, s3, ops[3]);
    lemma_after_push(r, layer, s4, ops[4]);
    assert(s4.push(ops[4]) =~= ops);
    assert(r.after_all(layer, ops) =~= r.used(at, key));
}

/// A cache whose slots are apart.
pub open spec fn usable(m: CacheModel) -> bool {
    &&& m.valid()
    &&& m.lru.capacity <= usize::MAX
    &&& m.gate_stride > 0
    &&& m.up_stride > 0
    &&& m.down_stride > 0
}

proof fn lemma_apart(capacity: nat, stride: nat, a: nat, b: nat)
    requires
        a < capacity,
        b < capacity,
        a != b,
        stride > 0,
        capacity * stride <= usize::MAX,
    ensures
        (a * stride) as usize != (b * stride) as usize,
{
    assert(a * stride <= usize::MAX && b * stride <= usize::MAX) by (nonlinear_arith)
        requires
            a < capacity,
            b < capacity,
            capacity * stride <= usize::MAX,
    ;
    assert(a * stride != b * stride) by (nonlinear_arith)
        requires
            a != b,
            stride > 0,
    ;
}

/// Different slots are at different places.
proof fn lemma_slots_apart(m: CacheModel, a: usize, b: usize)
    requires
        usable(m),
        a < m.lru.capacity,
        b < m.lru.capacity,
        a != b,
    ensures
        slot_at(m, a).gate != slot_at(m, b).gate,
        slot_at(m, a).up != slot_at(m, b).up,
        slot_at(m, a).down != slot_at(m, b).down,
{
    let n = m.lru.capacity;
    lemma_apart(n, m.gate_stride, a as nat, b as nat);
    lemma_apart(n, m.up_stride, a as nat, b as nat);
    lemma_apart(n, m.down_stride, a as nat, b as nat);
}

/// Once a reserved slot has its bytes, memory agrees with the cache again.
proof fn lemma_reserve(r: Residency, m: CacheModel, key: ExpertKey, p: Placement, after: CacheModel)
    requires
        usable(m),
        reserved(m, key, p.slot, p.hit, after),
        p.offsets == after.offsets(p.slot as nat),
        r.agrees(m),
    ensures
        usable(after),
        after.lru.capacity == m.lru.capacity,
        p.slot < after.lru.capacity,
        cached(p) == slot_at(after, p.slot),
        after.lru.entries.len() > 0,
        after.lru.entries[0] == (key, p.slot),
        p.hit ==> r.agrees(after) && r.whole(cached(p), key),
        !p.hit ==> r.with(cached(p), key).agrees(after) && r.with(cached(p), key).whole(
            cached(p),
            key,
        ),
{
    let s = m.lru.entries;
    let t = after.lru.entries;
    lemma_assigned_valid(m.lru, key, p.slot, p.hit, after.lru);
    if p.hit {
        let i = choose|i: int| 0 <= i < s.len() && (#[trigger] s[i]).0 == key;
        assert(present_at(s, key, i));
        assert(r.whole(slot_at(m, s[i].1), s[i].0));
        assert forall|j: int| 0 <= j < t.len() implies r.whole(
            slot_at(after, (#[trigger] t[j]).1),
            t[j].0,
        ) by {
            let k = if j == 0 {
                i
            } else if j <= i {
                j - 1
            } else {
                j
            };
            assert(t[j] == s[k]);
            assert(r.whole(slot_at(m, s[k].1), s[k].0));
        }
    } else {
        let w = r.with(cached(p), key);
        assert(t[0] == (key, p.slot));
        assert forall|j: int| 0 <= j < t.len() implies w.whole(
            slot_at(after, (#[trigger] t[j]).1),
            t[j].0,
        ) by {
            if j > 0 {
                assert(t[j] == s[j - 1]);
                assert(r.whole(slot_at(m, s[j - 1].1), s[j - 1].0));
                assert(t[0].1 != t[j].1);
                lemma_slots_apart(after, p.slot, t[j].1);
            }
        }
    }
}

/// The caches between the reservations of a run of keys.
pub proof fn lemma_chain(
    m: CacheModel,
    keys: Seq<ExpertKey>,
    p: Seq<Placement>,
    after: CacheModel,
) -> (mids: Seq<CacheModel>)
    requires
        reserved_all(m, keys, p, after),
    ensures
        p.len() == keys.len(),
        is_chain(mids, keys, p),
        mids[0] == m,
        mids.last() == after,
    decreases keys.len(),
{
    if keys.len() == 0 {
        seq![m]
    } else {
        let mid = choose|mid: CacheModel|
            {
                &&& reserved_all(m, keys.drop_last(), p.drop_last(), mid)
                &&& #[trigger] reserved(mid, keys.last(), p.last().slot, p.last().hit, after)
            };
        let front = lemma_chain(m, keys.drop_last(), p.drop_last(), mid);
        let mids = front.push(after);
        assert forall|i: int| 0 <= i < keys.len() implies linked(mids, keys, p, i) by {
            if i < keys.len() - 1 {
                assert(linked(front, keys.drop_last(), p.drop_last(), i));
            } else {
                assert(front.last() == mid);
            }
        }
        mids
    }
}

/// The `i`-th reservation leads from one cache to the next.
pub open spec fn linked(
    mids: Seq<CacheModel>,
    keys: Seq<ExpertKey>,
    p: Seq<Placement>,
    i: int,
) -> bool {
    &&& reserved(mids[i], keys[i], p[i].slot, p[i].hit, mids[i + 1])
    &&& p[i].offsets == mids[i + 1].offsets(p[i].slot as nat)
}

/// Caches that reservations lead through in turn.
pub open spec fn is_chain(
    mids: Seq<CacheModel>,
    keys: Seq<ExpertKey>,
    p: Seq<Placement>,
) -> bool {
    &&& mids.len() == keys.len() + 1
    &&& forall|i: int| 0 <= i < keys.len() ==> #[trigger] linked(mids, keys, p, i)
}

/// Experts that are copied to the staging buffers every time.
pub proof fn lemma_staged(
    r: Residency,
    layer: u32,
    c: ConfigModel,
    m: MoeConfig,
    experts: Seq<u32>,
    k: nat,
)
    requires
        k <= experts.len(),
    ensures
        ({
            let after = r.after_all(layer, staged_ops(c, m, experts, k));
            &&& after.read == r.read + found_all(layer, experts, k)
            &&& after.safe == r.safe
            &&& after.flying == r.flying
        }),
    decreases k,
{
    if k == 0 {
        assert(r.read + found_all(layer, experts, 0) =~= r.read);
    } else {
        let before = staged_ops(c, m, experts, (k - 1) as nat);
        let e = experts[k - 1];
        let copy = upload_ops(staged(), e);
        lemma_staged(r, layer, c, m, experts, (k - 1) as nat);
        let r1 = r.after_all(layer, before);
        let r2 = r1.with(staged(), (layer, e));
        lemma_upload(r1, layer, staged(), e);
        lemma_expert(r2, layer, c, m, staged(), k - 1, (layer, e));
        lemma_after_concat(r, layer, before, copy);
        lemma_after_concat(r, layer, before + copy, expert_ops(c, m, staged(), k - 1));
        assert(r.read + found_all(layer, experts, k) =~= r1.read + found((layer, e)));
    }
}

/// Experts out of the cache, one after the other.
pub proof fn lemma_cached(
    r: Residency,
    layer: u32,
    c: ConfigModel,
    m: MoeConfig,
    experts: Seq<u32>,
    p: Seq<Placement>,
    mids: Seq<CacheModel>,
    k: nat,
)
    requires
        p.len() == experts.len(),
        is_chain(mids, keys_of(layer, experts), p),
        usable(mids[0]),
        r.agrees(mids[0]),
        k <= experts.len(),
    ensures
        ({
            let after = r.after_all(layer, cached_ops(c, m, experts, p, k));
            &&& usable(mids[k as int])
            &&& after.agrees(mids[k as int])
            &&& after.read == r.read + found_all(layer, experts, k)
            &&& after.safe == r.safe
            &&& after.flying == r.flying
        }),
    decreases k,
{
    if k == 0 {
        assert(r.read + found_all(layer, experts, 0) =~= r.read);
    } else {
        let before = cached_ops(c, m, experts, p, (k - 1) as nat);
        let e = experts[k - 1];
        let key = (layer, e);
        let q = p[k - 1];
        let copy = if q.hit {
            Seq::empty()
        } else {
            upload_ops(cached(q), e)
        };
        lemma_cached(r, layer, c, m, experts, p, mids, (k - 1) as nat);
        let r1 = r.after_all(layer, before);
        assert(linked(mids, keys_of(layer, experts), p, k - 1));
        lemma_reserve(r1, mids[k - 1], key, q, mids[k as int]);
        lemma_upload(r1, layer, cached(q), e);
        let r2 = r1.after_all(layer, copy);
        lemma_expert(r2, layer, c, m, cached(q), k - 1, key);
        lemma_after_concat(r, layer, before, copy);
        lemma_after_concat(r, layer, before + copy, expert_ops(c, m, cached(q), k - 1));
        lemma_used_agrees(r2, cached(q), key, mids[k as int]);
        assert(r.read + found_all(layer, experts, k) =~= r1.read + found(key));
    }
}

/// Reading an expert changes no bytes.
proof fn lemma_used_agrees(r: Residency, at: ExpertAt, key: ExpertKey, m: CacheModel)
    requires
        r.agrees(m),
    ensures
        r.used(at, key).agrees(m),
{
    assert forall|i: int| 0 <= i < m.lru.entries.len() implies r.used(at, key).whole(
        slot_at(m, (#[trigger] m.lru.entries[i]).1),
        m.lru.entries[i].0,
    ) by {
        assert(r.whole(slot_at(m, m.lru.entries[i].1), m.lru.entries[i].0));
    }
}

/// Steps of the pipelined loop in two runs are the steps in one.
pub proof fn lemma_overlap_concat(
    c: ConfigModel,
    m: MoeConfig,
    experts: Seq<u32>,
    p: Seq<Placement>,
    s: Seq<OverlapStep>,
    t: Seq<OverlapStep>,
)
    ensures
        overlap_ops(c, m, experts, p, s + t) == overlap_ops(c, m, experts, p, s) + overlap_ops(
            c,
            m,
            experts,
            p,
            t,
        ),
    decreases t.len(),
{
    if t.len() == 0 {
        assert(s + t =~= s);
        assert(overlap_ops(c, m, experts, p, s) + Seq::<Op>::empty() =~= overlap_ops(
            c,
            m,
            experts,
            p,
            s,
        ));
    } else {
        lemma_overlap_concat(c, m, experts, p, s, t.drop_last());
        assert((s + t).drop_last() =~= s + t.drop_last());
        assert((s + t).last() == t.last());
        assert(overlap_ops(c, m, experts, p, s + t) =~= overlap_ops(c, m, experts, p, s)
            + overlap_ops(c, m, experts, p, t));
    }
}

pub proof fn lemma_overlap_one(
    c: ConfigModel,
    m: MoeConfig,
    experts: Seq<u32>,
    p: Seq<Placement>,
    s: OverlapStep,
)
    ensures
        overlap_ops(c, m, experts, p, seq![s]) == overlap_step_ops(c, m, experts, p, s),
{
    assert(seq![s].drop_last() =~= Seq::<OverlapStep>::empty());
    assert(seq![s].last() == s);
    assert(overlap_ops(c, m, experts, p, Seq::empty()) =~= Seq::<Op>::empty());
    assert(Seq::<Op>::empty() + overlap_step_ops(c, m, experts, p, s) =~= overlap_step_ops(
        c,
        m,
        experts,
        p,
        s,
    ));
}

/// What memory is like while an expert's copies are under way.
pub open spec fn copying(r: Residency, at: ExpertAt, key: ExpertKey) -> Residency {
    Residency {
        held: r.held.remove(at.gate).remove(at.up).remove(at.down),
        flying: seq![
            (at.gate, (ExpertPart::Gate, key)),
            (at.up, (ExpertPart::Up, key)),
            (at.down, (ExpertPart::Down, key)),
        ],
        ..r
    }
}

proof fn lemma_start(r: Residency, layer: u32, at: ExpertAt, expert: u32)
    requires
        r.at_rest(),
    ensures
        r.after_all(layer, start_upload_ops(at, expert)) == copying(r, at, (layer, expert)),
{
    let ops = start_upload_ops(at, expert);
    let none = Seq::<Op>::empty();
    let one = none.push(ops[0]);
    let two = one.push(ops[1]);
    lemma_after_push(r, layer, none, ops[0]);
    lemma_after_push(r, layer, one, ops[1]);
    lemma_after_push(r, layer, two, ops[2]);
    assert(two.push(ops[2]) =~= ops);
    assert(r.after_all(layer, ops) =~= copying(r, at, (layer, expert)));
}

/// Copies that have arrived are like copies that were never pipelined.
proof fn lemma_landed(r: Residency, at: ExpertAt, key: ExpertKey)
    requires
        at.gate.buf == Buf::PoolGate,
        at.up.buf == Buf::PoolUp,
        at.down.buf == Buf::PoolDown,
    ensures
        landed(copying(r, at, key).held, copying(r, at, key).flying) == r.with(at, key).held,
{
    let w = copying(r, at, key);
    let f = w.flying;
    reveal_with_fuel(landed, 4);
    assert(f.drop_last() =~= seq![f[0], f[1]]);
    assert(f.drop_last().drop_last() =~= seq![f[0]]);
    assert(f.drop_last().drop_last().drop_last() =~= Seq::empty());
    assert(landed(w.held, f) =~= r.with(at, key).held);
}

/// An expert computes while the next one's copies are under way.
proof fn lemma_ahead(
    r: Residency,
    layer: u32,
    c: ConfigModel,
    m: MoeConfig,
    experts: Seq<u32>,
    p: Seq<Placement>,
    k: nat,
)
    requires
        r.at_rest(),
        0 < k < p.len(),
        p.len() == experts.len(),
        p.len() <= usize::MAX,
        r.whole(cached(p[k - 1]), (layer, experts[k - 1])),
        cached(p[k - 1]).gate != cached(p[k as int]).gate,
        cached(p[k - 1]).up != cached(p[k as int]).up,
        cached(p[k - 1]).down != cached(p[k as int]).down,
    ensures
        r.after_all(
            layer,
            overlap_ops(
                c,
                m,
                experts,
                p,
                seq![OverlapStep::StartCopy { k: k as usize }] + seq![
                    OverlapStep::Compute { k: (k - 1) as usize },
                    OverlapStep::MarkComputeDone,
                ] + seq![OverlapStep::WaitCopy],
            ),
        ) == (Residency {
            held: r.with(cached(p[k as int]), (layer, experts[k as int])).held,
            read: r.read + found((layer, experts[k - 1])),
            ..r
        }),
{
    let next = cached(p[k as int]);
    let here = cached(p[k - 1]);
    let (nk, hk) = ((layer, experts[k as int]), (layer, experts[k - 1]));
    let s1 = seq![OverlapStep::StartCopy { k: k as usize }];
    let s2 = seq![OverlapStep::Compute { k: (k - 1) as usize }];
    let s3 = seq![OverlapStep::MarkComputeDone];
    let s4 = seq![OverlapStep::WaitCopy];
    let o1 = start_upload_ops(next, experts[k as int]);
    let o2 = expert_ops(c, m, here, k - 1);
    let o3 = seq![Op::MarkComputeDone];
    let o4 = seq![Op::WaitUpload];
    lemma_overlap_one(c, m, experts, p, s1[0]);
    lemma_overlap_one(c, m, experts, p, s2[0]);
    lemma_overlap_one(c, m, experts, p, s3[0]);
    lemma_overlap_one(c, m, experts, p, s4[0]);
    lemma_overlap_concat(c, m, experts, p, s1, s2);
    lemma_overlap_concat(c, m, experts, p, s1 + s2, s3);
    lemma_overlap_concat(c, m, experts, p, s1 + s2 + s3, s4);
    assert(s1 + seq![s2[0], s3[0]] + s4 =~= s1 + s2 + s3 + s4);
    let r1 = copying(r, next, nk);
    let r2 = r1.used(here, hk);
    let r3 = Residency { busy: Set::empty(), ..r2 };
    let done = Residency {
        held: r.with(next, nk).held,
        read: r.read + found(hk),
        ..r
    };
    lemma_start(r, layer, next, experts[k as int]);
    assert(r1.whole(here, hk));
    lemma_expert(r1, layer, c, m, here, k - 1, hk);
    lemma_after_concat(r, layer, o1, o2);
    lemma_after_concat(r, layer, o1 + o2, o3);
    lemma_after_concat(r, layer, o1 + o2 + o3, o4);
    let none = Seq::<Op>::empty();
    lemma_after_push(r2, layer, none, Op::MarkComputeDone);
    lemma_after_push(r3, layer, none, Op::WaitUpload);
    assert(none.push(Op::MarkComputeDone) =~= o3);
    assert(none.push(Op::WaitUpload) =~= o4);
    lemma_landed(r, next, nk);
    assert(r3.after_all(layer, o4) =~= done);
}

/// An expert computes with nothing to copy for the next one.
proof fn lemma_alone(
    r: Residency,
    layer: u32,
    c: ConfigModel,
    m: MoeConfig,
    experts: Seq<u32>,
    p: Seq<Placement>,
    k: nat,
)
    requires
        r.at_rest(),
        0 < k <= p.len(),
        p.len() == experts.len(),
        p.len() <= usize::MAX,
        r.whole(cached(p[k - 1]), (layer, experts[k - 1])),
    ensures
        r.after_all(
            layer,
            overlap_ops(
                c,
                m,
                experts,
                p,
                seq![
                    OverlapStep::Compute { k: (k - 1) as usize },
                    OverlapStep::MarkComputeDone,
                ],
            ),
        ) == (Residency { read: r.read + found((layer, experts[k - 1])), ..r }),
{
    let here = cached(p[k - 1]);
    let key = (layer, experts[k - 1]);
    let s1 = seq![OverlapStep::Compute { k: (k - 1) as usize }];
    let s2 = seq![OverlapStep::MarkComputeDone];
    let o1 = expert_ops(c, m, here, k - 1);
    let o2 = seq![Op::MarkComputeDone];
    lemma_overlap_one(c, m, experts, p, s1[0]);
    lemma_overlap_one(c, m, experts, p, s2[0]);
    lemma_overlap_concat(c, m, experts, p, s1, s2);
    assert(s1 + s2 =~= seq![s1[0], s2[0]]);
    lemma_expert(r, layer, c, m, here, k - 1, key);
    lemma_after_concat(r, layer, o1, o2);
    let none = Seq::<Op>::empty();
    lemma_after_push(r.used(here, key), layer, none, Op::MarkComputeDone);
    assert(none.push(Op::MarkComputeDone) =~= o2);
    assert(r.used(here, key).after_all(layer, o2) =~= (Residency {
        read: r.read + found(key),
        ..r
    }));
}

/// The last of the first `k` experts and the one after it, as far as there
/// is one.
pub open spec fn ahead_of(k: nat, n: nat) -> int {
    if k < n {
        k as int + 1
    } else {
        n as int
    }
}

/// Experts out of the cache, each one's copies under way while the one before
/// computes.
pub proof fn lemma_overlapped(
    r: Residency,
    layer: u32,
    c: ConfigModel,
    m: MoeConfig,
    experts: Seq<u32>,
    p: Seq<Placement>,
    mids: Seq<CacheModel>,
    k: nat,
)
    requires
        p.len() == experts.len(),
        p.len() <= usize::MAX,
        is_chain(mids, keys_of(layer, experts), p),
        usable(mids[0]),
        mids[0].lru.capacity >= 2,
        r.agrees(mids[0]),
        r.at_rest(),
        k <= experts.len(),
    ensures
        ({
            let after = r.after_all(
                layer,
                overlap_ops(c, m, experts, p, overlap_steps(p, k)),
            );
            let mid = mids[ahead_of(k, p.len())];
            &&& usable(mid)
            &&& mid.lru.capacity == mids[0].lru.capacity
            &&& after.agrees(mid)
            &&& after.at_rest()
            &&& after.read == r.read + found_all(layer, experts, k)
            &&& k < p.len() ==> after.whole(cached(p[k as int]), (layer, experts[k as int]))
        }),
    decreases k,
{
    let n = p.len();
    let keys = keys_of(layer, experts);
    if k == 0 {
        assert(r.read + found_all(layer, experts, 0) =~= r.read);
        if n > 0 {
            assert(linked(mids, keys, p, 0));
            lemma_reserve(r, mids[0], keys[0], p[0], mids[1]);
            if !p[0].hit {
                lemma_overlap_one(c, m, experts, p, OverlapStep::CopyNow { k: 0 });
                lemma_upload(r, layer, cached(p[0]), experts[0]);
            }
        }
    } else {
        let before = overlap_steps(p, (k - 1) as nat);
        lemma_overlapped(r, layer, c, m, experts, p, mids, (k - 1) as nat);
        let r1 = r.after_all(layer, overlap_ops(c, m, experts, p, before));
        assert(ahead_of((k - 1) as nat, n) == k);
        let work = seq![
            OverlapStep::Compute { k: (k - 1) as usize },
            OverlapStep::MarkComputeDone,
        ];
        if k < n {
            assert(linked(mids, keys, p, k as int));
            lemma_reserve(r1, mids[k as int], keys[k as int], p[k as int], mids[k as int + 1]);
        }
        if k < n && !p[k as int].hit {
            assert(linked(mids, keys, p, k - 1));
            lemma_chain_usable(mids, keys, p, (k - 1) as nat);
            law_lookahead_spares_the_slot_in_use(
                mids[k - 1],
                keys[k - 1],
                p[k - 1].slot,
                p[k - 1].hit,
                mids[k as int],
                keys[k as int],
                p[k as int].slot,
                mids[k as int + 1],
            );
            lemma_assigned_valid(
                mids[k - 1].lru,
                keys[k - 1],
                p[k - 1].slot,
                p[k - 1].hit,
                mids[k as int].lru,
            );
            lemma_front(mids[k - 1], keys[k - 1], p[k - 1], mids[k as int]);
            lemma_slots_apart(mids[k as int + 1], p[k - 1].slot, p[k as int].slot);
            let more = seq![OverlapStep::StartCopy { k: k as usize }] + work + seq![
                OverlapStep::WaitCopy,
            ];
            lemma_ahead(r1, layer, c, m, experts, p, k);
            lemma_overlap_concat(c, m, experts, p, before, more);
            lemma_after_concat(
                r,
                layer,
                overlap_ops(c, m, experts, p, before),
                overlap_ops(c, m, experts, p, more),
            );
            assert(overlap_steps(p, k) =~= before + more);
            lemma_same_bytes(
                r1.with(cached(p[k as int]), keys[k as int]),
                r.after_all(layer, overlap_ops(c, m, experts, p, overlap_steps(p, k))),
                mids[k as int + 1],
            );
        } else {
            lemma_alone(r1, layer, c, m, experts, p, k);
            lemma_overlap_concat(c, m, experts, p, before, work);
            lemma_after_concat(
                r,
                layer,
                overlap_ops(c, m, experts, p, before),
                overlap_ops(c, m, experts, p, work),
            );
            assert(overlap_steps(p, k) =~= before + work);
            lemma_same_bytes(
                r1,
                r.after_all(layer, overlap_ops(c, m, experts, p, overlap_steps(p, k))),
                mids[ahead_of(k, n)],
            );
        }
        assert(r.read + found_all(layer, experts, k) =~= r1.read + found(keys[k - 1]));
    }
}

/// Memory that holds the same bytes agrees with the same cache.
proof fn lemma_same_bytes(a: Residency, b: Residency, m: CacheModel)
    requires
        a.agrees(m),
        b.held == a.held,
    ensures
        b.agrees(m),
{
    assert forall|i: int| 0 <= i < m.lru.entries.len() implies b.whole(
        slot_at(m, (#[trigger] m.lru.entries[i]).1),
        m.lru.entries[i].0,
    ) by {
        assert(a.whole(slot_at(m, m.lru.entries[i].1), m.lru.entries[i].0));
    }
}

/// A reserved slot is one of the cache's.
proof fn lemma_front(m: CacheModel, key: ExpertKey, p: Placement, after: CacheModel)
    requires
        usable(m),
        reserved(m, key, p.slot, p.hit, after),
    ensures
        p.slot < after.lru.capacity,
{
    let s = m.lru.entries;
    lemma_assigned_valid(m.lru, key, p.slot, p.hit, after.lru);
    if p.hit {
        let i = choose|i: int| 0 <= i < s.len() && (#[trigger] s[i]).0 == key;
        assert(present_at(s, key, i));
    }
    assert(after.lru.entries[0].1 == p.slot);
}

/// Every cache of a chain is usable if the first is.
proof fn lemma_chain_usable(
    mids: Seq<CacheModel>,
    keys: Seq<ExpertKey>,
    p: Seq<Placement>,
    k: nat,
)
    requires
        is_chain(mids, keys, p),
        usable(mids[0]),
        k <= keys.len(),
    ensures
        usable(mids[k as int]),
        mids[k as int].lru.capacity == mids[0].lru.capacity,
    decreases k,
{
    if k > 0 {
        lemma_chain_usable(mids, keys, p, (k - 1) as nat);
        assert(linked(mids, keys, p, k - 1));
        lemma_assigned_valid(
            mids[k - 1].lru,
            keys[k - 1],
            p[k - 1].slot,
            p[k - 1].hit,
            mids[k as int].lru,
        );
    }
}

/// Experts of a chunk, each with its group.
pub proof fn lemma_grouped(
    r: Residency,
    layer: u32,
    c: ConfigModel,
    m: MoeConfig,
    g: Seq<Seq<Assignment>>,
    experts: Seq<u32>,
    p: Option<Seq<Placement>>,
    mids: Seq<CacheModel>,
    k: nat,
)
    requires
        p matches Some(p) ==> {
            &&& p.len() == experts.len()
            &&& is_chain(mids, keys_of(layer, experts), p)
            &&& usable(mids[0])
            &&& r.agrees(mids[0])
        },
        k <= experts.len(),
    ensures
        ({
            let after = r.after_all(layer, routed_chunk_ops(c, m, g, experts, p, k));
            &&& p is Some ==> usable(mids[k as int]) && after.agrees(mids[k as int])
            &&& after.read == r.read + found_all(layer, experts, k)
            &&& after.safe == r.safe
            &&& after.flying == r.flying
        }),
    decreases k,
{
    if k == 0 {
        assert(r.read + found_all(layer, experts, 0) =~= r.read);
    } else {
        let before = routed_chunk_ops(c, m, g, experts, p, (k - 1) as nat);
        let e = experts[k - 1];
        let key = (layer, e);
        let rows = g[e as int].len() as u32;
        let s = source(p, k - 1);
        let gather = gather_ops(c, e, rows);
        let copy = fetch_ops(s.0, e, s.1);
        lemma_grouped(r, layer, c, m, g, experts, p, mids, (k - 1) as nat);
        let r1 = r.after_all(layer, before);
        assert forall|i: int| 0 <= i < gather.len() implies r1.after(layer, #[trigger] gather[i])
            == r1 by {
            assert(i == 0 || i == 1);
        }
        lemma_after_others(r1, layer, gather);
        match p {
            Some(p) => {
                assert(linked(mids, keys_of(layer, experts), p, k - 1));
                lemma_reserve(r1, mids[k - 1], key, p[k - 1], mids[k as int]);
            },
            None => {},
        }
        lemma_upload(r1, layer, s.0, e);
        let r2 = r1.after_all(layer, copy);
        lemma_group(r2, layer, c, m, s.0, rows, key);
        lemma_after_concat(r, layer, before, gather);
        lemma_after_concat(r, layer, before + gather, copy);
        lemma_after_concat(r, layer, before + gather + copy, group_ops(c, m, s.0, rows));
        if p is Some {
            lemma_used_agrees(r2, s.0, key, mids[k as int]);
        }
        assert(r.read + found_all(layer, experts, k) =~= r1.read + found(key));
    }
}

/// The experts a token chose compute one after the other, each one reading
/// its own three matrices, whether they were copied just now, copied while
/// the one before computed, or cached by an earlier token; no copy is started
/// to a slot that is still being read. Afterwards memory agrees with the
/// cache's bookkeeping, so the same holds for the next token.
pub proof fn law_chosen_experts_read_their_own_bytes(
    r: Residency,
    c: ConfigModel,
    m: MoeConfig,
    layer: u32,
    x: At,
    before: Option<CacheModel>,
    after: Option<CacheModel>,
    capturing: bool,
    plan: RoutedPlan,
)
    requires
        is_routed_plan(c, m, layer, x, before, after, capturing, plan),
        r.at_rest(),
        before matches Some(b) ==> usable(b) && r.agrees(b),
    ensures
        ({
            let done = r.after_all(layer, plan.ops@);
            let e = plan.experts@;
            &&& done.read == r.read + found_all(layer, e, e.len())
            &&& done.safe
            &&& done.flying.len() == 0
            &&& after matches Some(a) ==> usable(a) && done.agrees(a)
        }),
{
    let e = plan.experts@;
    let p = plan.placements@;
    let add = moe_add_ops(c, x);
    match (before, after) {
        (Some(b), Some(a)) => {
            let mids = lemma_chain(b, keys_of(layer, e), p, a);
            let n = e.len();
            assert(plan.placements.len() <= usize::MAX);
            let work = if b.pipelines() && !capturing {
                lemma_overlapped(r, layer, c, m, e, p, mids, n);
                overlap_ops(c, m, e, p, overlap_steps(p, n))
            } else {
                lemma_cached(r, layer, c, m, e, p, mids, n);
                cached_ops(c, m, e, p, n)
            };
            lemma_after_concat(r, layer, work, add);
            lemma_add(r.after_all(layer, work), layer, add);
        },
        _ => {
            lemma_staged(r, layer, c, m, e, e.len());
            let work = staged_ops(c, m, e, e.len());
            lemma_after_concat(r, layer, work, add);
            lemma_add(r.after_all(layer, work), layer, add);
        },
    }
}

/// A cache that has forgotten everything agrees with any memory, so the laws
/// above and below hold again of what follows, whatever a failed copy left in
/// the slots.
pub proof fn law_emptied_cache_agrees_with_any_memory(r: Residency, m: CacheModel)
    requires
        usable(m),
    ensures
        usable(m.emptied()),
        r.agrees(m.emptied()),
{
}

/// A residual moves no expert.
proof fn lemma_add(r: Residency, layer: u32, add: Seq<Op>)
    requires
        add.len() == 1,
        add[0] is AddInplace,
    ensures
        r.after_all(layer, add) == r,
{
    assert forall|i: int| 0 <= i < add.len() implies r.after(layer, #[trigger] add[i]) == r by {
        assert(i == 0);
    }
    lemma_after_others(r, layer, add);
}

/// The experts a chunk chose compute one after the other, each one on its
/// group with its own three matrices. Afterwards memory agrees with the
/// cache's bookkeeping.
pub proof fn law_grouped_experts_read_their_own_bytes(
    r: Residency,
    c: ConfigModel,
    m: MoeConfig,
    layer: u32,
    rows: u32,
    g: Seq<Seq<Assignment>>,
    before: Option<CacheModel>,
    after: Option<CacheModel>,
    plan: RoutedChunkPlan,
)
    requires
        is_routed_chunk_plan(c, m, layer, rows, g, before, after, plan),
        before matches Some(b) ==> usable(b) && r.agrees(b),
    ensures
        ({
            let done = r.after_all(layer, plan.ops@);
            let e = plan.experts@;
            &&& done.read == r.read + found_all(layer, e, e.len())
            &&& done.safe == r.safe
            &&& done.flying == r.flying
            &&& after matches Some(a) ==> usable(a) && done.agrees(a)
        }),
{
    let e = plan.experts@;
    let n = e.len();
    let add = chunk_moe_add_ops(c, rows);
    match (before, after) {
        (Some(b), Some(a)) => {
            let p = plan.placements@;
            let mids = lemma_chain(b, keys_of(layer, e), p, a);
            lemma_grouped(r, layer, c, m, g, e, Some(p), mids, n);
            let work = routed_chunk_ops(c, m, g, e, Some(p), n);
            lemma_after_concat(r, layer, work, add);
            lemma_add(r.after_all(layer, work), layer, add);
        },
        _ => {
            lemma_grouped(r, layer, c, m, g, e, None, Seq::empty(), n);
            let work = routed_chunk_ops(c, m, g, e, None, n);
            lemma_after_concat(r, layer, work, add);
            lemma_add(r.after_all(layer, work), layer, add);
        },
    }
}

} // verus!
