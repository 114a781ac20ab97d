//! Operations of a mixture of experts, for one token and for a chunk.

use super::token::rows_fit;
use super::{lemma_allow_concat, Buffers};
use crate::qwen35::config::MoeConfig;
use crate::qwen35::forward::dims::{dims_fit, lemma_scaled};
use crate::qwen35::forward::model::CHUNK_CAP;
use crate::qwen35::forward::moe::{
    cached, cached_ops, expert_ops, lemma_overlap_indices, moe_add_ops, moe_route_ops, overlap_ops,
    overlap_step_ops, staged, staged_ops, start_upload_ops, upload_ops, ExpertAt,
};
use crate::qwen35::forward::moe_chunk::{
    chunk_moe_add_ops, chunk_route_ops, fetch_ops, gather_ops, group_ops, lemma_touched, oversized,
    routed_chunk_ops, source, touched,
};
use crate::qwen35::forward::plan::{At, Buf, Op};
use crate::qwen35::forward::scratch::{moe_chunk_scratch, moe_scratch};
use crate::qwen35::moe::expert_cache::Placement;
use crate::qwen35::moe::overlap::{overlap_steps, OverlapStep};
use crate::qwen35::moe::route::Assignment;
use vstd::prelude::*;

verus! {

/// A token's residual is inside its buffer.
pub open spec fn row_inside(b: Buffers, x: At) -> bool {
    x.buf == Buf::X && b.at(x, b.config.embedding_length as int)
}

/// One row is as long as a row.
proof fn lemma_once(rows: int, cols: int)
    requires
        rows == 1,
    ensures
        rows * cols == cols,
        cols * rows == cols,
{
}

/// Router and shared expert of one token.
pub proof fn lemma_route(b: Buffers, m: MoeConfig, x: At)
    requires
        b.config.moe == Some(m),
        row_inside(b, x),
    ensures
        b.allow_all(moe_route_ops(b.config, m, x)),
{
    let c = b.config;
    let ops = moe_route_ops(c, m, x);
    let s = moe_scratch(c, m, 0);
    assert(s.ffn_a >= m.shared_ff_len);
    assert(0 <= m.expert_count * c.embedding_length) by (nonlinear_arith);
    match (ops[0], ops[2]) {
        (
            Op::Rmsnorm { rows, cols, .. },
            Op::RouteTopk { rows: tokens, expert_count, top_k, .. },
        ) => {
            lemma_once(rows as int, cols as int);
            lemma_once(tokens as int, expert_count as int);
            lemma_once(tokens as int, top_k as int);
        },
        _ => {},
    }
    assert(b.allows(ops[0]));
    assert(b.allows(ops[1]));
    assert(b.allows(ops[2]));
    assert(b.allows(ops[3]));
    assert(b.allows(ops[4]));
    assert(b.allows(ops[5]));
    assert(b.allows(ops[6]));
    assert(b.allows(ops[7]));
    assert(b.allows(ops[8]));
    assert forall|i: int| 0 <= i < ops.len() implies b.allows(#[trigger] ops[i]) by {
        assert(i == 0 || i == 1 || i == 2 || i == 3 || i == 4 || i == 5 || i == 6 || i == 7 || i
            == 8);
    }
}

proof fn lemma_upload(b: Buffers, at: ExpertAt, expert: u32)
    ensures
        b.allow_all(upload_ops(at, expert)),
        b.allow_all(start_upload_ops(at, expert)),
{
    assert forall|i: int| 0 <= i < 3 implies b.allows(#[trigger] upload_ops(at, expert)[i]) by {
        assert(i == 0 || i == 1 || i == 2);
    }
    assert forall|i: int| 0 <= i < 3 implies b.allows(
        #[trigger] start_upload_ops(at, expert)[i],
    ) by {
        assert(i == 0 || i == 1 || i == 2);
    }
}

proof fn lemma_expert(b: Buffers, m: MoeConfig, at: ExpertAt, k: int)
    requires
        b.config.moe == Some(m),
        0 <= k < m.expert_used_count,
    ensures
        b.allow_all(expert_ops(b.config, m, at, k)),
{
    let c = b.config;
    let ops = expert_ops(c, m, at, k);
    let s = moe_scratch(c, m, 0);
    assert(s.ffn_a >= m.expert_ff_len);
    assert(b.allows(ops[0]));
    assert(b.allows(ops[1]));
    assert(b.allows(ops[2]));
    assert(b.allows(ops[3]));
    assert(b.allows(ops[4]));
    assert forall|i: int| 0 <= i < ops.len() implies b.allows(#[trigger] ops[i]) by {
        assert(i == 0 || i == 1 || i == 2 || i == 3 || i == 4);
    }
}

/// Chosen experts that are copied every time.
pub proof fn lemma_staged(b: Buffers, m: MoeConfig, experts: Seq<u32>, k: nat)
    requires
        b.config.moe == Some(m),
        k <= m.expert_used_count,
    ensures
        b.allow_all(staged_ops(b.config, m, experts, k)),
    decreases k,
{
    if k > 0 {
        let c = b.config;
        let before = staged_ops(c, m, experts, (k - 1) as nat);
        let upload = upload_ops(staged(), experts[k - 1]);
        lemma_staged(b, m, experts, (k - 1) as nat);
        lemma_upload(b, staged(), experts[k - 1]);
        lemma_expert(b, m, staged(), k - 1);
        lemma_allow_concat(b, before, upload);
        lemma_allow_concat(b, before + upload, expert_ops(c, m, staged(), k - 1));
    }
}

/// Chosen experts out of the cache.
pub proof fn lemma_cached(
    b: Buffers,
    m: MoeConfig,
    experts: Seq<u32>,
    p: Seq<Placement>,
    k: nat,
)
    requires
        b.config.moe == Some(m),
        k <= m.expert_used_count,
    ensures
        b.allow_all(cached_ops(b.config, m, experts, p, k)),
    decreases k,
{
    if k > 0 {
        let c = b.config;
        let at = cached(p[k - 1]);
        let before = cached_ops(c, m, experts, p, (k - 1) as nat);
        let upload = if p[k - 1].hit {
            Seq::empty()
        } else {
            upload_ops(at, experts[k - 1])
        };
        lemma_cached(b, m, experts, p, (k - 1) as nat);
        lemma_upload(b, at, experts[k - 1]);
        lemma_expert(b, m, at, k - 1);
        lemma_allow_concat(b, before, upload);
        lemma_allow_concat(b, before + upload, expert_ops(c, m, at, k - 1));
    }
}

proof fn lemma_steps(
    b: Buffers,
    m: MoeConfig,
    experts: Seq<u32>,
    p: Seq<Placement>,
    s: Seq<OverlapStep>,
)
    requires
        b.config.moe == Some(m),
        forall|i: int|
            0 <= i < s.len() ==> ((#[trigger] s[i]) matches OverlapStep::Compute { k } ==> k
                < m.expert_used_count),
    ensures
        b.allow_all(overlap_ops(b.config, m, experts, p, s)),
    decreases s.len(),
{
    if s.len() > 0 {
        let c = b.config;
        let front = s.drop_last();
        assert forall|i: int| 0 <= i < front.len() implies ((
        #[trigger] front[i]) matches OverlapStep::Compute { k } ==> k < m.expert_used_count) by {
            assert(front[i] == s[i]);
        }
        lemma_steps(b, m, experts, p, front);
        match s.last() {
            OverlapStep::CopyNow { k } => {
                lemma_upload(b, cached(p[k as int]), experts[k as int]);
            },
            OverlapStep::StartCopy { k } => {
                lemma_upload(b, cached(p[k as int]), experts[k as int]);
            },
            OverlapStep::Compute { k } => {
                assert(s[s.len() - 1] == s.last());
                lemma_expert(b, m, cached(p[k as int]), k as int);
            },
            _ => {},
        }
        lemma_allow_concat(
            b,
            overlap_ops(c, m, experts, p, front),
            overlap_step_ops(c, m, experts, p, s.last()),
        );
    }
}

/// Chosen experts out of the cache, their copies pipelined.
pub proof fn lemma_overlap(b: Buffers, m: MoeConfig, experts: Seq<u32>, p: Seq<Placement>)
    requires
        b.config.moe == Some(m),
        p.len() == experts.len(),
        p.len() <= m.expert_used_count,
    ensures
        b.allow_all(overlap_ops(b.config, m, experts, p, overlap_steps(p, experts.len()))),
{
    let s = overlap_steps(p, experts.len());
    lemma_overlap_indices(p, experts.len());
    assert forall|i: int| 0 <= i < s.len() implies ((
    #[trigger] s[i]) matches OverlapStep::Compute { k } ==> k < m.expert_used_count) by {}
    lemma_steps(b, m, experts, p, s);
}

/// The residual of one token.
pub proof fn lemma_moe_add(b: Buffers, m: MoeConfig, x: At)
    requires
        b.config.moe == Some(m),
        row_inside(b, x),
    ensures
        b.allow_all(moe_add_ops(b.config, x)),
{
    let s = moe_scratch(b.config, m, 0);
    assert(b.allows(moe_add_ops(b.config, x)[0]));
}

/// A chunk's sizes are inside the buffers that a mixture of experts uses.
proof fn lemma_moe_room(b: Buffers, m: MoeConfig, rows: int)
    requires
        b.config.moe == Some(m),
        dims_fit(b.config, CHUNK_CAP as int),
        0 <= rows <= CHUNK_CAP,
    ensures
        ({
            let c = b.config;
            let t = moe_chunk_scratch(c, m);
            &&& 0 <= rows * c.embedding_length <= t.accum
            &&& t.shared_out == t.accum && t.group_x == t.accum && t.group_down == t.accum
            &&& 0 <= rows * m.expert_count <= t.router_logits
            &&& 0 <= rows * m.expert_used_count <= t.topk_idx
            &&& 0 <= rows * m.shared_ff_len <= t.shared_a
            &&& 0 <= rows * m.expert_ff_len <= t.group_gate
            &&& rows * c.embedding_length <= u32::MAX
            &&& rows * m.shared_ff_len <= u32::MAX
            &&& rows * m.expert_ff_len <= u32::MAX
        }),
{
    let c = b.config;
    let n = CHUNK_CAP as int;
    lemma_scaled(rows, n, c.embedding_length as int);
    lemma_scaled(rows, n, m.expert_count as int);
    lemma_scaled(rows, n, m.expert_used_count as int);
    lemma_scaled(rows, n, m.shared_ff_len as int);
    lemma_scaled(rows, n, m.expert_ff_len as int);
}

/// Router and shared expert of a chunk, and its residual.
pub proof fn lemma_chunk_route(b: Buffers, m: MoeConfig, rows: u32)
    requires
        b.config.moe == Some(m),
        b.chunk,
        rows_fit(b, rows as int),
    ensures
        b.allow_all(chunk_route_ops(b.config, m, rows)),
        b.allow_all(chunk_moe_add_ops(b.config, rows)),
{
    let c = b.config;
    let ops = chunk_route_ops(c, m, rows);
    lemma_moe_room(b, m, rows as int);
    super::token::lemma_room(b, rows as int);
    assert(0 <= m.expert_count * c.embedding_length) by (nonlinear_arith);
    match ops[7] {
        Op::GemmF32 { rows: tokens, m: width, n, .. } => {
            lemma_once(width as int, tokens as int);
            lemma_once(width as int, n as int);
        },
        _ => {},
    }
    assert(b.allows(ops[0]));
    assert(b.allows(ops[1]));
    assert(b.allows(ops[2]));
    assert(b.allows(ops[3]));
    assert(b.allows(ops[4]));
    assert(b.allows(ops[5]));
    assert(b.allows(ops[6]));
    assert(b.allows(ops[7]));
    assert(b.allows(ops[8]));
    assert forall|i: int| 0 <= i < ops.len() implies b.allows(#[trigger] ops[i]) by {
        assert(i == 0 || i == 1 || i == 2 || i == 3 || i == 4 || i == 5 || i == 6 || i == 7 || i
            == 8);
    }
    assert(b.allows(chunk_moe_add_ops(c, rows)[0]));
}

proof fn lemma_group(b: Buffers, m: MoeConfig, at: ExpertAt, expert: u32, present: bool, rows: u32)
    requires
        b.config.moe == Some(m),
        dims_fit(b.config, CHUNK_CAP as int),
        rows <= CHUNK_CAP,
    ensures
        b.allow_all(
            gather_ops(b.config, expert, rows) + fetch_ops(at, expert, present) + group_ops(
                b.config,
                m,
                at,
                rows,
            ),
        ),
{
    let c = b.config;
    let gather = gather_ops(c, expert, rows);
    let fetch = fetch_ops(at, expert, present);
    let ops = group_ops(c, m, at, rows);
    lemma_moe_room(b, m, rows as int);
    lemma_upload(b, at, expert);
    assert(b.allows(gather[0]));
    assert(b.allows(gather[1]));
    assert forall|i: int| 0 <= i < gather.len() implies b.allows(#[trigger] gather[i]) by {
        assert(i == 0 || i == 1);
    }
    assert(b.allows(ops[0]));
    assert(b.allows(ops[1]));
    assert(b.allows(ops[2]));
    assert(b.allows(ops[3]));
    assert(b.allows(ops[4]));
    assert forall|i: int| 0 <= i < ops.len() implies b.allows(#[trigger] ops[i]) by {
        assert(i == 0 || i == 1 || i == 2 || i == 3 || i == 4);
    }
    lemma_allow_concat(b, gather, fetch);
    lemma_allow_concat(b, gather + fetch, ops);
}

/// No group has more rows than the group buffers.
proof fn lemma_group_sizes(g: Seq<Seq<Assignment>>, i: int)
    requires
        0 <= i,
        oversized(g, i) is None,
    ensures
        forall|j: int| i <= j < g.len() ==> (#[trigger] g[j]).len() <= CHUNK_CAP,
    decreases g.len() - i,
{
    if i < g.len() {
        lemma_group_sizes(g, i + 1);
    }
}

proof fn lemma_groups(
    b: Buffers,
    m: MoeConfig,
    g: Seq<Seq<Assignment>>,
    experts: Seq<u32>,
    p: Option<Seq<Placement>>,
    k: nat,
)
    requires
        b.config.moe == Some(m),
        dims_fit(b.config, CHUNK_CAP as int),
        k <= experts.len(),
        forall|i: int| 0 <= i < experts.len() ==> (#[trigger] experts[i]) < g.len(),
        forall|j: int| 0 <= j < g.len() ==> (#[trigger] g[j]).len() <= CHUNK_CAP,
    ensures
        b.allow_all(routed_chunk_ops(b.config, m, g, experts, p, k)),
    decreases k,
{
    if k > 0 {
        let c = b.config;
        let e = experts[k - 1];
        let rows = g[e as int].len() as u32;
        let s = source(p, k - 1);
        let before = routed_chunk_ops(c, m, g, experts, p, (k - 1) as nat);
        let more = gather_ops(c, e, rows) + fetch_ops(s.0, e, s.1) + group_ops(c, m, s.0, rows);
        lemma_groups(b, m, g, experts, p, (k - 1) as nat);
        lemma_group(b, m, s.0, e, s.1, rows);
        lemma_allow_concat(b, before, more);
        assert(routed_chunk_ops(c, m, g, experts, p, k) =~= before + more);
    }
}

/// Every expert that a chunk chose, each with its group.
pub proof fn lemma_routed_chunk(
    b: Buffers,
    m: MoeConfig,
    g: Seq<Seq<Assignment>>,
    p: Option<Seq<Placement>>,
    rows: u32,
)
    requires
        b.config.moe == Some(m),
        b.chunk,
        rows_fit(b, rows as int),
        g.len() <= u32::MAX,
        oversized(g, 0) is None,
    ensures
        b.allow_all(
            routed_chunk_ops(
                b.config,
                m,
                g,
                touched(g, g.len()),
                p,
                touched(g, g.len()).len(),
            ),
        ),
{
    lemma_group_sizes(g, 0);
    lemma_touched(g, g.len());
    lemma_groups(b, m, g, touched(g, g.len()), p, touched(g, g.len()).len());
}

} // verus!
