//! What happens where a pass waits for a router: the chosen experts are added
//! to the tokens that chose them, and the pass goes on with the next layer.

use super::experts::chosen_sum;
use super::grouped::{group_fits, law_grouped_experts_are_added, row_sum};
use super::routed::{knows, law_chosen_experts_are_added};
use super::whole::{
    goes_on, law_pass_goes_through_every_layer, lemma_stays_visits_none, lemma_visited_in_turn,
    visited,
};
use super::{added, done, residual, row, Held, Machine};
use crate::error::ConfigError;
use crate::qwen35::forward::layer::layer_close;
use crate::qwen35::forward::model::pass::{
    chunk_routed, moved_steps, routes_rows, row_refused, row_routed, Segment,
};
use crate::qwen35::forward::model::{ModelState, Pending, CHUNK_CAP};
use crate::qwen35::forward::moe::RoutedPlan;
use crate::qwen35::forward::moe_chunk::{oversized, RoutedChunkPlan};
use crate::qwen35::forward::plan::{At, Buf};
use crate::qwen35::forward::residency::{usable, Residency};
use crate::qwen35::moe::route::{
    choice_is_grouped, groups, law_groups_hold_every_choice, member_is_chosen, selection_error,
    Assignment,
};
use vstd::prelude::*;

verus! {

/// A row that waited for its router gets the experts it chose, weighted as it
/// chose them.
pub proof fn law_waiting_row_gets_its_experts<T>(
    k: Machine<T>,
    h: Held<T>,
    res: Residency,
    s: ModelState,
    idx: Seq<i32>,
    plan: RoutedPlan,
    t: ModelState,
    seg: Segment,
)
    requires
        row_routed(s, idx, plan, t, seg),
        s.pending->0.row * s.config.embedding_length <= usize::MAX,
        res.at_rest(),
        s.experts matches Some(b) ==> usable(b) && res.agrees(b),
        knows(k, h, res, s.pending->0.layer as u32),
    ensures
        ({
            let c = s.config;
            let n = c.embedding_length as int;
            let r = s.pending->0.row as int;
            let experts = Seq::new(idx.len(), |i: int| idx[i] as u32);
            residual(done(k, h, plan.ops@), c.embedding_length, r) == added(
                k,
                residual(h, c.embedding_length, r),
                chosen_sum(
                    k,
                    c,
                    c.moe->0,
                    experts,
                    |i: int| (h.mem)(Buf::MoeTopkWeight, i),
                    row(h.mem, Buf::MoeXn, 0, n),
                    row(h.mem, Buf::MoeAccum, 0, n),
                    idx.len(),
                ),
            )
        }),
{
    let c = s.config;
    let q = s.pending->0;
    let x = At { buf: Buf::X, offset: (q.row * c.embedding_length) as usize };
    law_chosen_experts_are_added(
        k,
        h,
        res,
        c,
        c.moe->0,
        q.layer as u32,
        x,
        s.experts,
        t.experts,
        q.params.captured,
        plan,
    );
    assert(plan.experts@ =~= Seq::new(idx.len(), |i: int| idx[i] as u32));
}

proof fn lemma_not_oversized(g: Seq<Seq<Assignment>>, from: int, e: int)
    requires
        oversized(g, from) is None,
        from <= e < g.len(),
    ensures
        g[e].len() <= CHUNK_CAP,
    decreases g.len() - from,
{
    if from < e {
        lemma_not_oversized(g, from + 1, e);
    }
}

/// A chunk that waited for its router: every row gets the experts that it
/// chose. The groups that are handed out hold every row's choices, with their
/// weights, and nothing else.
pub proof fn law_waiting_chunk_gets_its_experts<T>(
    k: Machine<T>,
    h: Held<T>,
    res: Residency,
    s: ModelState,
    idx: Seq<i32>,
    weights: Seq<u32>,
    plan: RoutedChunkPlan,
    t: ModelState,
    seg: Segment,
    r: int,
)
    requires
        chunk_routed(s, idx, weights, plan, t, seg),
        k.groups == groups(
            idx,
            weights,
            s.config.moe->0.expert_used_count as nat,
            s.config.moe->0.expert_count as nat,
            idx.len(),
        ),
        CHUNK_CAP * s.config.moe->0.expert_ff_len <= u32::MAX,
        s.pending->0.params.rows * s.config.embedding_length <= u32::MAX,
        s.experts matches Some(b) ==> usable(b) && res.agrees(b),
        knows(k, h, res, s.pending->0.layer as u32),
        0 <= r < s.pending->0.params.rows,
    ensures
        ({
            let c = s.config;
            let n = c.embedding_length as int;
            residual(done(k, h, plan.ops@), c.embedding_length, r) == added(
                k,
                residual(h, c.embedding_length, r),
                row_sum(
                    k,
                    c,
                    c.moe->0,
                    k.groups,
                    plan.experts@,
                    r,
                    row(h.mem, Buf::Xn, r * n, n),
                    row(h.mem, Buf::ChunkAccum, r * n, n),
                    plan.experts@.len(),
                ),
            )
        }),
        forall|j: int|
            0 <= j < s.config.moe->0.expert_used_count ==> #[trigger] choice_is_grouped(
                k.groups,
                idx,
                weights,
                s.config.moe->0.expert_used_count as nat,
                r,
                j,
            ),
{
    let q = s.pending->0;
    let c = s.config;
    let m = c.moe->0;
    let rows = q.params.rows;
    let g = k.groups;
    if m.expert_used_count > 0 {
        law_groups_hold_every_choice(
            idx,
            weights,
            m.expert_used_count as nat,
            m.expert_count,
            rows as nat,
        );
    }
    assert forall|e: int| 0 <= e < g.len() implies group_fits(#[trigger] g[e], m, rows) by {
        lemma_not_oversized(g, 0, e);
        assert(g[e].len() * m.expert_ff_len <= CHUNK_CAP * m.expert_ff_len) by (nonlinear_arith)
            requires
                g[e].len() <= CHUNK_CAP,
        ;
        if m.expert_used_count == 0 {
            assert(rows * m.expert_used_count == 0) by (nonlinear_arith)
                requires
                    m.expert_used_count == 0,
            ;
        }
        assert forall|i: int| 0 <= i < g[e].len() implies (#[trigger] g[e][i]).0 < rows by {
            assert(member_is_chosen(
                g,
                idx,
                weights,
                m.expert_used_count as nat,
                rows as nat,
                e,
                i,
            ));
        }
    }
    law_grouped_experts_are_added(
        k,
        h,
        res,
        c,
        c.moe->0,
        q.layer as u32,
        q.params.rows,
        s.experts,
        t.experts,
        plan,
        r,
    );
}

/// After a router was answered a pass goes on where it stood: with the
/// chunk's next row, or with the next layer.
pub proof fn law_routed_row_goes_on(
    s: ModelState,
    idx: Seq<i32>,
    plan: RoutedPlan,
    t: ModelState,
    seg: Segment,
)
    requires
        row_routed(s, idx, plan, t, seg),
        s.pending->0.layer < s.layers.len() <= u32::MAX,
    ensures
        ({
            let q = s.pending->0;
            if q.row + 1 < q.params.rows {
                &&& visited(seg.steps@).len() == 0
                &&& t.pending == Some(Pending { row: (q.row + 1) as u32, ..q })
            } else {
                goes_on(q.layer + 1, seg.steps@, t)
            }
        }),
{
    let q = s.pending->0;
    let planned = ModelState { experts: t.experts, ..s };
    if q.row + 1 < q.params.rows {
        lemma_stays_visits_none(seg.steps@);
    } else {
        let close = layer_close(s.config, q.params);
        lemma_stays_visits_none(close);
        law_pass_goes_through_every_layer(planned, q.params, q.layer + 1);
        let rest = moved_steps(planned, q.params, q.layer + 1);
        lemma_visited_in_turn(close, rest);
        assert(visited(seg.steps@) =~= visited(rest));
    }
}

/// After a chunk's router was answered the pass goes on with the next layer.
pub proof fn law_routed_chunk_goes_on(
    s: ModelState,
    idx: Seq<i32>,
    weights: Seq<u32>,
    plan: RoutedChunkPlan,
    t: ModelState,
    seg: Segment,
)
    requires
        chunk_routed(s, idx, weights, plan, t, seg),
        s.pending->0.layer < s.layers.len() <= u32::MAX,
    ensures
        goes_on(s.pending->0.layer + 1, seg.steps@, t),
{
    let q = s.pending->0;
    let planned = ModelState { experts: t.experts, ..s };
    law_pass_goes_through_every_layer(planned, q.params, q.layer + 1);
    let rest = moved_steps(planned, q.params, q.layer + 1);
    assert(seg.steps@ =~= rest);
}

/// A choice names an expert of the model.
pub open spec fn names_an_expert(choice: i32, experts: u32) -> bool {
    0 <= choice < experts
}

/// A waiting row's routing is refused exactly if it has another number of
/// choices than the model makes, or one that names no expert; and it is told
/// which choice.
pub proof fn law_bad_routing_of_a_row_is_refused(s: ModelState, idx: Seq<i32>, e: ConfigError)
    requires
        s.pending is Some,
        routes_rows(s.pending->0.params),
        idx.len() <= usize::MAX,
    ensures
        ({
            let m = s.config.moe->0;
            &&& (exists|x: ConfigError| #[trigger] row_refused(s, idx, x)) <==> !(idx.len()
                == m.expert_used_count && forall|i: int|
                0 <= i < idx.len() ==> names_an_expert(#[trigger] idx[i], m.expert_count))
            &&& row_refused(s, idx, e) ==> match e {
                ConfigError::RoutingLen { found, expected } => found == idx.len() && expected
                    == m.expert_used_count && found != expected,
                ConfigError::InvalidExpertIndex { raw, expert_count } => idx.contains(raw) && raw
                    < 0 && expert_count == m.expert_count,
                ConfigError::ExpertOutOfRange { expert, expert_count } => idx.contains(
                    expert as i32,
                ) && expert >= m.expert_count && expert_count == m.expert_count,
                _ => false,
            }
        }),
{
    let m = s.config.moe->0;
    let n = m.expert_count;
    if idx.len() != m.expert_used_count {
        assert(row_refused(
            s,
            idx,
            ConfigError::RoutingLen {
                found: idx.len() as usize,
                expected: m.expert_used_count as usize,
            },
        ));
    } else if exists|i: int| 0 <= i < idx.len() && !names_an_expert(#[trigger] idx[i], n) {
        let i = choose|i: int| 0 <= i < idx.len() && !names_an_expert(#[trigger] idx[i], n);
        let j = lemma_first_bad(idx, n, i);
        assert(row_refused(s, idx, selection_error(idx[j], n)->0));
    }
    if row_refused(s, idx, e) && idx.len() == m.expert_used_count {
        let i = choose|i: int|
            0 <= i < idx.len() && selection_error(#[trigger] idx[i], n) == Some(e);
        assert(!names_an_expert(idx[i], n));
        assert(idx.contains(idx[i]));
    }
    assert forall|x: ConfigError| #[trigger] row_refused(s, idx, x) implies !(idx.len()
        == m.expert_used_count && forall|i: int|
        0 <= i < idx.len() ==> names_an_expert(#[trigger] idx[i], n)) by {
        if idx.len() == m.expert_used_count {
            let i = choose|i: int|
                0 <= i < idx.len() && selection_error(#[trigger] idx[i], n) == Some(x);
            assert(!names_an_expert(idx[i], n));
        }
    }
}

/// The first bad choice.
proof fn lemma_first_bad(idx: Seq<i32>, n: u32, i: int) -> (j: int)
    requires
        0 <= i < idx.len(),
        !names_an_expert(idx[i], n),
    ensures
        0 <= j <= i,
        selection_error(idx[j], n) is Some,
        forall|k: int| 0 <= k < j ==> selection_error(#[trigger] idx[k], n) is None,
    decreases i,
{
    if exists|k: int| 0 <= k < i && selection_error(#[trigger] idx[k], n) is Some {
        let k = choose|k: int| 0 <= k < i && selection_error(#[trigger] idx[k], n) is Some;
        lemma_first_bad(idx, n, k)
    } else {
        i
    }
}

} // verus!
