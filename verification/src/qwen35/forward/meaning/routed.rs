//! A token's routed plan as a whole: the chosen experts, each with its own
//! matrices, and the residual.

use super::attention::lemma_keeps_all;
use super::experts::{accumulated, chosen_sum, expert_out, for_experts, law_expert_adds_its_output};
use super::{
    added, after, arrived, changes, done, lemma_add_row, lemma_in_turn, lemma_keeps,
    lemma_keeps_element, lemma_one, row, takes_experts, Held, Machine,
};
use crate::qwen35::cache::effect::Memory;
use crate::qwen35::config::{ConfigModel, MoeConfig};
use crate::qwen35::forward::moe::{
    cached, cached_ops, expert_ops, is_routed_plan, moe_add_ops, overlap_ops, staged, staged_ops,
    start_upload_ops, upload_ops, ExpertAt, RoutedPlan,
};
use crate::qwen35::forward::plan::{start, At, Buf, Op};
use crate::qwen35::forward::residency::{
    found, found_all, is_chain, landed, lemma_after_concat, lemma_after_push, lemma_cached,
    lemma_chain, lemma_overlap_concat, lemma_overlap_one, lemma_overlapped, lemma_staged, usable,
    Matrix, Residency,
};
use crate::qwen35::moe::expert_cache::{CacheModel, Placement};
use crate::qwen35::moe::expert_lru::ExpertKey;
use crate::qwen35::moe::overlap::{keys_of, overlap_steps, OverlapStep};
use vstd::prelude::*;

verus! {

/// A matrix of this layer is at a place as it was copied there.
pub open spec fn is_copy<T>(k: Machine<T>, layer: u32, x: Matrix, found: T) -> bool {
    x.1.0 == layer ==> found == (k.matrix)(x.0, x.1.1)
}

/// Memory holds the matrices of this layer that it is said to hold, and the
/// copies under way are those that are said to be.
pub open spec fn knows<T>(k: Machine<T>, h: Held<T>, r: Residency, layer: u32) -> bool {
    &&& forall|w: At| #[trigger]
        r.held.contains_key(w) ==> takes_experts(w.buf) && is_copy(
            k,
            layer,
            r.held[w],
            (h.mem)(w.buf, w.offset as int),
        )
    &&& h.flying.len() == r.flying.len()
    &&& forall|i: int|
        0 <= i < h.flying.len() ==> (#[trigger] h.flying[i]).0 == r.flying[i].0 && takes_experts(
            h.flying[i].0.buf,
        ) && is_copy(k, layer, r.flying[i].1, h.flying[i].1)
}

/// An operation of a routed plan: it copies matrices to where matrices go, or
/// leaves those places alone.
pub open spec fn of_a_plan(op: Op) -> bool {
    match op {
        Op::UploadExpert { dst, .. } => takes_experts(dst.buf),
        Op::StartUploadExpert { dst, .. } => takes_experts(dst.buf),
        Op::WaitUpload => true,
        _ => forall|b: Buf| takes_experts(b) ==> !(#[trigger] changes(op, b)),
    }
}

proof fn lemma_landed_known<T>(
    k: Machine<T>,
    layer: u32,
    mem: Memory<T>,
    held: Map<At, Matrix>,
    mine: Seq<(At, T)>,
    theirs: Seq<(At, Matrix)>,
)
    requires
        forall|w: At| #[trigger]
            held.contains_key(w) ==> takes_experts(w.buf) && is_copy(
                k,
                layer,
                held[w],
                mem(w.buf, w.offset as int),
            ),
        mine.len() == theirs.len(),
        forall|i: int|
            0 <= i < mine.len() ==> (#[trigger] mine[i]).0 == theirs[i].0 && takes_experts(
                mine[i].0.buf,
            ) && is_copy(k, layer, theirs[i].1, mine[i].1),
    ensures
        forall|w: At| #[trigger]
            landed(held, theirs).contains_key(w) ==> takes_experts(w.buf) && is_copy(
                k,
                layer,
                landed(held, theirs)[w],
                arrived(mem, mine)(w.buf, w.offset as int),
            ),
    decreases mine.len(),
{
    if mine.len() > 0 {
        let (a, b) = (mine.drop_last(), theirs.drop_last());
        assert forall|i: int| 0 <= i < a.len() implies (#[trigger] a[i]).0 == b[i].0
            && takes_experts(a[i].0.buf) && is_copy(k, layer, b[i].1, a[i].1) by {
            assert(a[i] == mine[i]);
        }
        lemma_landed_known(k, layer, mem, held, a, b);
        assert(mine[mine.len() - 1].0 == theirs[mine.len() - 1].0);
        assert forall|w: At| #[trigger] landed(held, theirs).contains_key(w) implies takes_experts(
            w.buf,
        ) && is_copy(
            k,
            layer,
            landed(held, theirs)[w],
            arrived(mem, mine)(w.buf, w.offset as int),
        ) by {
            let last = mine.last().0;
            if w != last {
                assert(landed(held, b).contains_key(w));
                assert(w.buf != last.buf || w.offset != last.offset);
            }
        }
    }
}

proof fn lemma_known_after<T>(k: Machine<T>, h: Held<T>, r: Residency, layer: u32, op: Op)
    requires
        knows(k, h, r, layer),
        of_a_plan(op),
    ensures
        knows(k, after(k, h, op), r.after(layer, op), layer),
{
    let (h2, r2) = (after(k, h, op), r.after(layer, op));
    match op {
        Op::UploadExpert { part, dst, expert } => {
            assert forall|w: At| #[trigger] r2.held.contains_key(w) implies takes_experts(w.buf)
                && is_copy(k, layer, r2.held[w], (h2.mem)(w.buf, w.offset as int)) by {
                if w != dst {
                    assert(r.held.contains_key(w));
                    assert(w.buf != dst.buf || w.offset != dst.offset);
                }
            }
        },
        Op::StartUploadExpert { part, dst, expert } => {
            assert forall|w: At| #[trigger] r2.held.contains_key(w) implies takes_experts(w.buf)
                && is_copy(k, layer, r2.held[w], (h2.mem)(w.buf, w.offset as int)) by {
                assert(r.held.contains_key(w));
            }
        },
        Op::WaitUpload => {
            lemma_landed_known(k, layer, h.mem, r.held, h.flying, r.flying);
        },
        _ => {
            assert forall|w: At| #[trigger] r2.held.contains_key(w) implies takes_experts(w.buf)
                && is_copy(k, layer, r2.held[w], (h2.mem)(w.buf, w.offset as int)) by {
                assert(r.held.contains_key(w));
                assert(!changes(op, w.buf));
                lemma_keeps_element(k, h, op, w.buf, w.offset as int);
            }
        },
    }
}

/// Memory holds what it is said to hold, whatever a plan does.
pub proof fn lemma_known_after_all<T>(
    k: Machine<T>,
    h: Held<T>,
    r: Residency,
    layer: u32,
    ops: Seq<Op>,
)
    requires
        knows(k, h, r, layer),
        forall|i: int| 0 <= i < ops.len() ==> of_a_plan(#[trigger] ops[i]),
    ensures
        knows(k, done(k, h, ops), r.after_all(layer, ops), layer),
    decreases ops.len(),
{
    if ops.len() > 0 {
        let less = ops.drop_last();
        assert forall|i: int| 0 <= i < less.len() implies of_a_plan(#[trigger] less[i]) by {
            assert(less[i] == ops[i]);
        }
        lemma_known_after_all(k, h, r, layer, less);
        assert(of_a_plan(ops[ops.len() - 1]));
        lemma_known_after(
            k,
            done(k, h, less),
            r.after_all(layer, less),
            layer,
            ops.last(),
        );
    }
}

/// An operation that only brings matrices.
pub open spec fn brings(op: Op) -> bool {
    match op {
        Op::UploadExpert { dst, .. } => takes_experts(dst.buf),
        Op::StartUploadExpert { dst, .. } => takes_experts(dst.buf),
        Op::WaitUpload | Op::MarkComputeDone => true,
        _ => false,
    }
}

/// Bringing matrices reads none and touches no number of a pass.
pub proof fn lemma_brought<T>(
    k: Machine<T>,
    h: Held<T>,
    r: Residency,
    layer: u32,
    ops: Seq<Op>,
)
    requires
        forall|i: int| 0 <= i < ops.len() ==> brings(#[trigger] ops[i]),
    ensures
        r.after_all(layer, ops).read == r.read,
        forall|b: Buf, at: int, n: int|
            !takes_experts(b) ==> #[trigger] row(done(k, h, ops).mem, b, at, n) == row(
                h.mem,
                b,
                at,
                n,
            ),
    decreases ops.len(),
{
    if ops.len() > 0 {
        let less = ops.drop_last();
        assert forall|i: int| 0 <= i < less.len() implies brings(#[trigger] less[i]) by {
            assert(less[i] == ops[i]);
        }
        lemma_brought(k, h, r, layer, less);
        assert(brings(ops[ops.len() - 1]));
        let t = done(k, h, less);
        assert forall|b: Buf, at: int, n: int| !takes_experts(b) implies #[trigger] row(
            done(k, h, ops).mem,
            b,
            at,
            n,
        ) == row(h.mem, b, at, n) by {
            lemma_keeps(k, t, ops.last(), b, at, n);
            assert(row(t.mem, b, at, n) == row(h.mem, b, at, n));
        }
    }
}

/// What an expert's kernels found is at its place.
proof fn lemma_found_there(
    r: Residency,
    layer: u32,
    c: ConfigModel,
    m: MoeConfig,
    at: ExpertAt,
    i: int,
    key: ExpertKey,
)
    requires
        r.after_all(layer, expert_ops(c, m, at, i)).read == r.read + found(key),
    ensures
        r.whole(at, key),
{
    let ops = expert_ops(c, m, at, i);
    let none = Seq::<Op>::empty();
    let s1 = none.push(ops[0]);
    let s2 = s1.push(ops[1]);
    let s3 = s2.push(ops[2]);
    let s4 = s3.push(ops[3]);
    lemma_after_push(r, layer, none, ops[0]);
    lemma_after_push(r, layer, s1, ops[1]);
    lemma_after_push(r, layer, s2, ops[2]);
    lemma_after_push(r, layer, s3, ops[3]);
    lemma_after_push(r, layer, s4, ops[4]);
    assert(s4.push(ops[4]) =~= ops);
    let t = r.after_all(layer, ops).read;
    let n = r.read.len() as int;
    assert(t[n] == found(key)[0]);
    assert(t[n + 1] == found(key)[1]);
    assert(t[n + 2] == found(key)[2]);
}

proof fn lemma_expert_ops_of_a_plan(c: ConfigModel, m: MoeConfig, at: ExpertAt, i: int)
    ensures
        forall|j: int|
            0 <= j < expert_ops(c, m, at, i).len() ==> of_a_plan(
                #[trigger] expert_ops(c, m, at, i)[j],
            ),
{
}

/// What stays as it is while experts compute.
pub open spec fn token_kept<T>(a: Memory<T>, b: Memory<T>) -> bool {
    &&& forall|at: int, n: int| #[trigger] row(b, Buf::MoeXn, at, n) == row(a, Buf::MoeXn, at, n)
    &&& forall|at: int, n: int| #[trigger] row(b, Buf::X, at, n) == row(a, Buf::X, at, n)
    &&& forall|at: int, n: int| #[trigger]
        row(b, Buf::MoeTopkWeight, at, n) == row(a, Buf::MoeTopkWeight, at, n)
}

/// One expert more: whatever brought its matrices, its output is added.
proof fn lemma_one_expert_more<T>(
    k: Machine<T>,
    h: Held<T>,
    r: Residency,
    layer: u32,
    c: ConfigModel,
    m: MoeConfig,
    bring: Seq<Op>,
    at: ExpertAt,
    i: int,
    rest: Seq<Op>,
    expert: u32,
)
    requires
        knows(k, h, r, layer),
        forall|j: int| 0 <= j < bring.len() ==> brings(#[trigger] bring[j]),
        forall|j: int| 0 <= j < rest.len() ==> brings(#[trigger] rest[j]),
        for_experts(at),
        0 <= i <= usize::MAX,
        r.after_all(layer, bring + expert_ops(c, m, at, i) + rest).read == r.read + found(
            (layer, expert),
        ),
    ensures
        ({
            let n = c.embedding_length as int;
            let ops = bring + expert_ops(c, m, at, i) + rest;
            let t = done(k, h, ops);
            &&& knows(k, t, r.after_all(layer, ops), layer)
            &&& row(t.mem, Buf::MoeAccum, 0, n) == accumulated(
                k,
                row(h.mem, Buf::MoeAccum, 0, n),
                (h.mem)(Buf::MoeTopkWeight, i),
                expert_out(k, c, m, expert, row(h.mem, Buf::MoeXn, 0, n)),
            )
            &&& token_kept(h.mem, t.mem)
        }),
{
    let n = c.embedding_length as int;
    let work = expert_ops(c, m, at, i);
    let ops = bring + work + rest;
    lemma_in_turn(k, h, bring + work, rest);
    lemma_in_turn(k, h, bring, work);
    lemma_after_concat(r, layer, bring + work, rest);
    lemma_after_concat(r, layer, bring, work);
    let (h1, r1) = (done(k, h, bring), r.after_all(layer, bring));
    let (h2, r2) = (done(k, h1, work), r1.after_all(layer, work));
    let t = done(k, h2, rest);
    lemma_brought(k, h, r, layer, bring);
    lemma_brought(k, h2, r2, layer, rest);
    lemma_found_there(r1, layer, c, m, at, i, (layer, expert));
    assert forall|j: int| 0 <= j < bring.len() implies of_a_plan(#[trigger] bring[j]) by {
        assert(brings(bring[j]));
    }
    assert forall|j: int| 0 <= j < rest.len() implies of_a_plan(#[trigger] rest[j]) by {
        assert(brings(rest[j]));
    }
    lemma_known_after_all(k, h, r, layer, bring);
    lemma_expert_ops_of_a_plan(c, m, at, i);
    lemma_known_after_all(k, h1, r1, layer, work);
    lemma_known_after_all(k, h2, r2, layer, rest);
    law_expert_adds_its_output(k, h1, c, m, at, i, expert);
    assert(row(h1.mem, Buf::MoeTopkWeight, i, 1)[0] == row(h.mem, Buf::MoeTopkWeight, i, 1)[0]);
    assert forall|p: int, q: int| #[trigger]
        row(t.mem, Buf::MoeXn, p, q) == row(h.mem, Buf::MoeXn, p, q) by {
        lemma_keeps_all(k, h1, work, Buf::MoeXn, p, q);
        assert(row(h1.mem, Buf::MoeXn, p, q) == row(h.mem, Buf::MoeXn, p, q));
    }
    assert forall|p: int, q: int| #[trigger]
        row(t.mem, Buf::X, p, q) == row(h.mem, Buf::X, p, q) by {
        lemma_keeps_all(k, h1, work, Buf::X, p, q);
        assert(row(h1.mem, Buf::X, p, q) == row(h.mem, Buf::X, p, q));
    }
    assert forall|p: int, q: int| #[trigger]
        row(t.mem, Buf::MoeTopkWeight, p, q) == row(h.mem, Buf::MoeTopkWeight, p, q) by {
        lemma_keeps_all(k, h1, work, Buf::MoeTopkWeight, p, q);
        assert(row(h1.mem, Buf::MoeTopkWeight, p, q) == row(h.mem, Buf::MoeTopkWeight, p, q));
    }
}

/// The sum after `n` experts is in place, and nothing of the token changed.
pub open spec fn summed<T>(
    k: Machine<T>,
    h: Held<T>,
    t: Held<T>,
    c: ConfigModel,
    m: MoeConfig,
    experts: Seq<u32>,
    n: nat,
) -> bool {
    let hidden = c.embedding_length as int;
    &&& row(t.mem, Buf::MoeAccum, 0, hidden) == chosen_sum(
        k,
        c,
        m,
        experts,
        |i: int| (h.mem)(Buf::MoeTopkWeight, i),
        row(h.mem, Buf::MoeXn, 0, hidden),
        row(h.mem, Buf::MoeAccum, 0, hidden),
        n,
    )
    &&& token_kept(h.mem, t.mem)
}

/// From the sum of all but the last to the sum of all.
proof fn lemma_summed<T>(
    k: Machine<T>,
    h: Held<T>,
    t: Held<T>,
    u: Held<T>,
    c: ConfigModel,
    m: MoeConfig,
    experts: Seq<u32>,
    n: nat,
)
    requires
        n > 0,
        summed(k, h, t, c, m, experts, (n - 1) as nat),
        token_kept(t.mem, u.mem),
        row(u.mem, Buf::MoeAccum, 0, c.embedding_length as int) == accumulated(
            k,
            row(t.mem, Buf::MoeAccum, 0, c.embedding_length as int),
            (t.mem)(Buf::MoeTopkWeight, n - 1),
            expert_out(
                k,
                c,
                m,
                experts[n - 1],
                row(t.mem, Buf::MoeXn, 0, c.embedding_length as int),
            ),
        ),
    ensures
        summed(k, h, u, c, m, experts, n),
{
    let i = n - 1;
    assert(row(t.mem, Buf::MoeTopkWeight, i, 1)[0] == row(h.mem, Buf::MoeTopkWeight, i, 1)[0]);
    assert forall|p: int, q: int| #[trigger]
        row(u.mem, Buf::MoeXn, p, q) == row(h.mem, Buf::MoeXn, p, q) by {
        assert(row(t.mem, Buf::MoeXn, p, q) == row(h.mem, Buf::MoeXn, p, q));
    }
    assert forall|p: int, q: int| #[trigger]
        row(u.mem, Buf::X, p, q) == row(h.mem, Buf::X, p, q) by {
        assert(row(t.mem, Buf::X, p, q) == row(h.mem, Buf::X, p, q));
    }
    assert forall|p: int, q: int| #[trigger]
        row(u.mem, Buf::MoeTopkWeight, p, q) == row(h.mem, Buf::MoeTopkWeight, p, q) by {
        assert(row(t.mem, Buf::MoeTopkWeight, p, q) == row(h.mem, Buf::MoeTopkWeight, p, q));
    }
}

/// Experts that are copied every time.
proof fn lemma_staged_sum<T>(
    k: Machine<T>,
    h: Held<T>,
    r: Residency,
    layer: u32,
    c: ConfigModel,
    m: MoeConfig,
    experts: Seq<u32>,
    n: nat,
)
    requires
        knows(k, h, r, layer),
        n <= experts.len() <= usize::MAX,
    ensures
        ({
            let ops = staged_ops(c, m, experts, n);
            let t = done(k, h, ops);
            summed(k, h, t, c, m, experts, n) && knows(k, t, r.after_all(layer, ops), layer)
        }),
    decreases n,
{
    if n > 0 {
        let p = (n - 1) as nat;
        lemma_staged_sum(k, h, r, layer, c, m, experts, p);
        lemma_staged(r, layer, c, m, experts, p);
        lemma_staged(r, layer, c, m, experts, n);
        let before = staged_ops(c, m, experts, p);
        let bring = upload_ops(staged(), experts[n - 1]);
        let work = expert_ops(c, m, staged(), n - 1);
        let none = Seq::<Op>::empty();
        let (t, s) = (done(k, h, before), r.after_all(layer, before));
        assert(staged_ops(c, m, experts, n) =~= before + (bring + work + none));
        lemma_in_turn(k, h, before, bring + work + none);
        lemma_after_concat(r, layer, before, bring + work + none);
        assert(r.read + found_all(layer, experts, n) =~= s.read + found((layer, experts[n - 1])));
        lemma_one_expert_more(
            k,
            t,
            s,
            layer,
            c,
            m,
            bring,
            staged(),
            n - 1,
            none,
            experts[n - 1],
        );
        lemma_summed(k, h, t, done(k, t, bring + work + none), c, m, experts, n);
    }
}

/// Experts out of the cache.
proof fn lemma_cached_sum<T>(
    k: Machine<T>,
    h: Held<T>,
    r: Residency,
    layer: u32,
    c: ConfigModel,
    m: MoeConfig,
    experts: Seq<u32>,
    p: Seq<Placement>,
    mids: Seq<CacheModel>,
    n: nat,
)
    requires
        knows(k, h, r, layer),
        p.len() == experts.len(),
        is_chain(mids, keys_of(layer, experts), p),
        usable(mids[0]),
        r.agrees(mids[0]),
        n <= experts.len() <= usize::MAX,
    ensures
        ({
            let ops = cached_ops(c, m, experts, p, n);
            let t = done(k, h, ops);
            summed(k, h, t, c, m, experts, n) && knows(k, t, r.after_all(layer, ops), layer)
        }),
    decreases n,
{
    if n > 0 {
        let q = (n - 1) as nat;
        lemma_cached_sum(k, h, r, layer, c, m, experts, p, mids, q);
        lemma_cached(r, layer, c, m, experts, p, mids, q);
        lemma_cached(r, layer, c, m, experts, p, mids, n);
        let before = cached_ops(c, m, experts, p, q);
        let at = cached(p[n - 1]);
        let bring = if p[n - 1].hit {
            Seq::<Op>::empty()
        } else {
            upload_ops(at, experts[n - 1])
        };
        let work = expert_ops(c, m, at, n - 1);
        let none = Seq::<Op>::empty();
        let (t, s) = (done(k, h, before), r.after_all(layer, before));
        assert(cached_ops(c, m, experts, p, n) =~= before + (bring + work + none));
        lemma_in_turn(k, h, before, bring + work + none);
        lemma_after_concat(r, layer, before, bring + work + none);
        assert(r.read + found_all(layer, experts, n) =~= s.read + found((layer, experts[n - 1])));
        lemma_one_expert_more(k, t, s, layer, c, m, bring, at, n - 1, none, experts[n - 1]);
        lemma_summed(k, h, t, done(k, t, bring + work + none), c, m, experts, n);
    }
}

/// Experts whose matrices are copied while the one before computes.
proof fn lemma_overlapped_sum<T>(
    k: Machine<T>,
    h: Held<T>,
    r: Residency,
    layer: u32,
    c: ConfigModel,
    m: MoeConfig,
    experts: Seq<u32>,
    p: Seq<Placement>,
    mids: Seq<CacheModel>,
    n: nat,
)
    requires
        knows(k, h, r, layer),
        p.len() == experts.len(),
        is_chain(mids, keys_of(layer, experts), p),
        usable(mids[0]),
        mids[0].lru.capacity >= 2,
        r.agrees(mids[0]),
        r.at_rest(),
        n <= experts.len() <= usize::MAX,
    ensures
        ({
            let ops = overlap_ops(c, m, experts, p, overlap_steps(p, n));
            let t = done(k, h, ops);
            summed(k, h, t, c, m, experts, n) && knows(k, t, r.after_all(layer, ops), layer)
        }),
    decreases n,
{
    let steps = overlap_steps(p, n);
    let all = overlap_ops(c, m, experts, p, steps);
    if n == 0 {
        if p.len() > 0 && !p[0].hit {
            lemma_overlap_one(c, m, experts, p, OverlapStep::CopyNow { k: 0 });
            assert(all =~= upload_ops(cached(p[0]), experts[0]));
            assert forall|j: int| 0 <= j < all.len() implies of_a_plan(#[trigger] all[j]) by {
                assert(brings(all[j]));
            }
        }
        lemma_brought(k, h, r, layer, all);
        lemma_known_after_all(k, h, r, layer, all);
        let t = done(k, h, all);
        let hidden = c.embedding_length as int;
        assert(row(t.mem, Buf::MoeAccum, 0, hidden) == row(h.mem, Buf::MoeAccum, 0, hidden));
    } else {
        let q = (n - 1) as nat;
        lemma_overlapped_sum(k, h, r, layer, c, m, experts, p, mids, q);
        lemma_overlapped(r, layer, c, m, experts, p, mids, q);
        lemma_overlapped(r, layer, c, m, experts, p, mids, n);
        let ahead = n < p.len() && !p[n as int].hit;
        let first = if ahead {
            seq![OverlapStep::StartCopy { k: n as usize }]
        } else {
            Seq::empty()
        };
        let middle = seq![
            OverlapStep::Compute { k: (n - 1) as usize },
            OverlapStep::MarkComputeDone,
        ];
        let last = if ahead {
            seq![OverlapStep::WaitCopy]
        } else {
            Seq::empty()
        };
        let before = overlap_steps(p, q);
        let compute = seq![OverlapStep::Compute { k: (n - 1) as usize }];
        let mark = seq![OverlapStep::MarkComputeDone];
        assert(steps =~= before + (first + compute + (mark + last)));
        let at = cached(p[n - 1]);
        let bring = overlap_ops(c, m, experts, p, first);
        let rest = overlap_ops(c, m, experts, p, mark + last);
        let work = expert_ops(c, m, at, n - 1);
        lemma_overlap_concat(c, m, experts, p, before, first + compute + (mark + last));
        lemma_overlap_concat(c, m, experts, p, first + compute, mark + last);
        lemma_overlap_concat(c, m, experts, p, first, compute);
        lemma_overlap_concat(c, m, experts, p, mark, last);
        lemma_overlap_one(c, m, experts, p, OverlapStep::Compute { k: (n - 1) as usize });
        lemma_overlap_one(c, m, experts, p, OverlapStep::MarkComputeDone);
        lemma_overlap_one(c, m, experts, p, OverlapStep::WaitCopy);
        lemma_overlap_one(c, m, experts, p, OverlapStep::StartCopy { k: n as usize });
        let so_far = overlap_ops(c, m, experts, p, before);
        assert(all == so_far + (bring + work + rest));
        assert forall|j: int| 0 <= j < bring.len() implies brings(#[trigger] bring[j]) by {
            if ahead {
                assert(bring =~= start_upload_ops(cached(p[n as int]), experts[n as int]));
            }
        }
        assert forall|j: int| 0 <= j < rest.len() implies brings(#[trigger] rest[j]) by {
            if ahead {
                assert(rest =~= seq![Op::MarkComputeDone, Op::WaitUpload]);
            } else {
                assert(rest =~= seq![Op::MarkComputeDone]);
            }
        }
        let (t, s) = (done(k, h, so_far), r.after_all(layer, so_far));
        lemma_in_turn(k, h, so_far, bring + work + rest);
        lemma_after_concat(r, layer, so_far, bring + work + rest);
        assert(r.read + found_all(layer, experts, n) =~= s.read + found((layer, experts[n - 1])));
        lemma_one_expert_more(k, t, s, layer, c, m, bring, at, n - 1, rest, experts[n - 1]);
        lemma_summed(k, h, t, done(k, t, bring + work + rest), c, m, experts, n);
    }
}

/// What a token gets from its routed experts: to the sum that the shared
/// expert began, every chosen expert adds its own `down(silu(gate) * up)`
/// with the weight of its choice, in the order of the choices; and the sum is
/// added to the token's residual. That holds without a cache, out of the
/// cache, and with copies that run ahead.
pub proof fn law_chosen_experts_are_added<T>(
    k: Machine<T>,
    h: Held<T>,
    r: Residency,
    c: ConfigModel,
    m: MoeConfig,
    layer: u32,
    x: At,
    before: Option<CacheModel>,
    after_it: Option<CacheModel>,
    capturing: bool,
    plan: RoutedPlan,
)
    requires
        is_routed_plan(c, m, layer, x, before, after_it, capturing, plan),
        x.buf == Buf::X,
        r.at_rest(),
        before matches Some(b) ==> usable(b) && r.agrees(b),
        knows(k, h, r, layer),
    ensures
        ({
            let n = c.embedding_length as int;
            let e = plan.experts@;
            row(done(k, h, plan.ops@).mem, Buf::X, x.offset as int, n) == added(
                k,
                row(h.mem, Buf::X, x.offset as int, n),
                chosen_sum(
                    k,
                    c,
                    m,
                    e,
                    |i: int| (h.mem)(Buf::MoeTopkWeight, i),
                    row(h.mem, Buf::MoeXn, 0, n),
                    row(h.mem, Buf::MoeAccum, 0, n),
                    e.len(),
                ),
            )
        }),
{
    let hidden = c.embedding_length;
    let n = hidden as int;
    let e = plan.experts@;
    let p = plan.placements@;
    let add = moe_add_ops(c, x);
    assert(plan.experts.len() <= usize::MAX);
    let work = match (before, after_it) {
        (Some(b), Some(a)) => {
            let mids = lemma_chain(b, keys_of(layer, e), p, a);
            if b.pipelines() && !capturing {
                lemma_overlapped_sum(k, h, r, layer, c, m, e, p, mids, e.len());
                overlap_ops(c, m, e, p, overlap_steps(p, e.len()))
            } else {
                lemma_cached_sum(k, h, r, layer, c, m, e, p, mids, e.len());
                cached_ops(c, m, e, p, e.len())
            }
        },
        _ => {
            lemma_staged_sum(k, h, r, layer, c, m, e, e.len());
            staged_ops(c, m, e, e.len())
        },
    };
    lemma_in_turn(k, h, work, add);
    let t = done(k, h, work);
    lemma_one(k, t, add);
    lemma_add_row(k, t, x, start(Buf::MoeAccum), hidden, 0, n);
    assert(row(t.mem, Buf::X, x.offset as int, n) == row(h.mem, Buf::X, x.offset as int, n));
}

} // verus!
