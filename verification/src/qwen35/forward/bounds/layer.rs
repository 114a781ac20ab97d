//! What a pass runs, layer by layer, stays inside the buffers.

use super::cache::{lemma_attend, lemma_attend_chunk_dense, lemma_attend_chunk_mixed};
use super::chunk::{lemma_chunk_sides, lemma_ffn_chunk, lemma_gdn_chunk};
use super::experts::{
    lemma_cached, lemma_chunk_route, lemma_moe_add, lemma_overlap, lemma_route, lemma_routed_chunk,
    lemma_staged, row_inside,
};
use super::token::{lemma_attention_sides, lemma_ffn, lemma_gdn, lemma_room, rows_fit};
use super::{dims_agree, lemma_allow_concat, Buffers};
use crate::qwen35::cache::hybrid::AttnCacheModel;
use crate::qwen35::config::ConfigModel;
use crate::qwen35::forward::attention::{
    attend_ops, head_ops, lemma_attention_ops, norm_ops, out_ops, project_ops, split_ops,
};
use crate::qwen35::forward::attention_chunk::{
    chunk_attend_dense_ops, chunk_attend_mixed_ops, chunk_out_ops, chunk_qkv_ops, lemma_chunk_ops,
};
use crate::qwen35::forward::dims::lemma_fewer_rows_fit;
use crate::qwen35::forward::ffn::{lemma_ffn_chunk_ops, lemma_ffn_ops};
use crate::qwen35::forward::gdn::lemma_gdn_ops;
use crate::qwen35::forward::gdn_chunk::lemma_gdn_chunk_ops;
use crate::qwen35::forward::layer::{
    ffn_open, layer_at, layer_fits, layer_open, lemma_open_parts, mix_steps, PassParams,
};
use crate::qwen35::forward::model::pass::{
    chunk_routed, embed_steps, lemma_embed_ops, lemma_tail_ops, lm_head_ops, row_routed,
    tail_norm_ops, tail_steps, Segment,
};
use crate::qwen35::forward::model::{pass_fits, ModelState, CHUNK_CAP};
use crate::qwen35::forward::moe::{
    cached_ops, moe_add_ops, moe_route_ops, overlap_ops, staged_ops, RoutedPlan,
};
use crate::qwen35::forward::moe_chunk::{
    chunk_moe_add_ops, chunk_route_ops, routed_chunk_ops, touched, RoutedChunkPlan,
};
use crate::qwen35::forward::plan::{
    lemma_ops_concat, lemma_ops_record, lemma_ops_runs, ops_of, record, runs, start, At, Buf, Op,
    Probe,
};
use crate::qwen35::moe::overlap::overlap_steps;
use crate::qwen35::moe::route::groups;
use crate::qwen35::weights::{Ffn, LayerWeights};
use vstd::prelude::*;

verus! {

/// The configuration of a checkpoint that was accepted.
pub open spec fn consistent(c: ConfigModel) -> bool {
    1 <= c.head_count_kv && dims_agree(c.gdn)
}

/// The buffers that layer `i` of a pass works on.
pub open spec fn buffers_of(s: ModelState, p: PassParams, i: int) -> Buffers {
    Buffers {
        config: s.config,
        chunk: p.chunk,
        max_seq: s.cache.max_seq,
        cache: s.cache.attn[i],
    }
}

/// A pass that fits has buffers for its rows.
proof fn lemma_pass_rows(b: Buffers, p: PassParams)
    requires
        crate::qwen35::forward::dims::dims_fit(b.config, CHUNK_CAP as int),
        consistent(b.config),
        b.chunk == p.chunk,
        1 <= p.rows <= CHUNK_CAP,
        p.chunk || p.rows == 1,
    ensures
        rows_fit(b, p.rows as int),
{
    lemma_fewer_rows_fit(b.config, CHUNK_CAP as int, b.rows());
}

proof fn lemma_mix(s: ModelState, p: PassParams, i: int)
    requires
        s.valid(),
        s.settled(),
        consistent(s.config),
        0 <= i < s.layers.len(),
        s.layer_pos(i) == s.pos,
        pass_fits(p, s.pos as int, s.cache.max_seq),
    ensures
        buffers_of(s, p, i).allow_all(
            ops_of(
                mix_steps(
                    s.config,
                    s.layers[i],
                    s.cache.attn[i],
                    s.cache.max_seq,
                    s.pos,
                    p,
                ),
            ),
        ),
{
    let c = s.config;
    let b = buffers_of(s, p, i);
    let a = s.cache.attn[i];
    let (pos, rows, fine) = (s.pos, p.rows, p.spec_fine());
    lemma_pass_rows(b, p);
    assert(layer_fits(c, s.cache, s.layers[i], i));
    assert(layer_at(c, a, s.cache.max_seq, pos as int));
    match s.layers[i] {
        LayerWeights::Gdn(_) => {
            if p.chunk {
                lemma_gdn_chunk_ops(c, rows, fine, p.captured);
                lemma_gdn_chunk(b, rows);
            } else {
                lemma_gdn_ops(c, fine);
                lemma_gdn(b);
            }
        },
        LayerWeights::Attention(x) => {
            let gated = x.has_output_gate;
            assert(a is Some);
            let cache = a->0;
            if p.chunk {
                let attend = match cache {
                    AttnCacheModel::Dense(dtype) => {
                        lemma_attend_chunk_dense(b, dtype, pos, rows);
                        chunk_attend_dense_ops(c, dtype, s.cache.max_seq, pos, rows)
                    },
                    AttnCacheModel::Mixed(m) => {
                        lemma_attend_chunk_mixed(b, m, pos, rows);
                        chunk_attend_mixed_ops(c, m, pos, rows)
                    },
                };
                let qkv = norm_ops(c, rows) + chunk_qkv_ops(c, gated, rows, pos);
                lemma_chunk_ops(c, gated, attend, pos, rows, fine);
                lemma_chunk_sides(b, gated, pos, rows);
                lemma_allow_concat(b, qkv, attend);
                lemma_allow_concat(b, qkv + attend, chunk_out_ops(c, gated, rows));
            } else {
                let attend = attend_ops(c, cache, s.cache.max_seq, pos);
                let qkv = norm_ops(c, 1) + (project_ops(c, gated) + split_ops(
                    gated,
                    c.head_count as nat,
                    c.head_dim,
                ) + head_ops(c, 1, pos));
                lemma_attention_ops(c, gated, cache, s.cache.max_seq, pos, p.n_splits, fine);
                lemma_attention_sides(b, gated, pos);
                lemma_attend(b, cache, pos);
                lemma_allow_concat(b, qkv, attend);
                lemma_allow_concat(b, qkv + attend, out_ops(c, gated));
            }
        },
    }
}

proof fn lemma_ffn_open(s: ModelState, p: PassParams, i: int)
    requires
        s.valid(),
        consistent(s.config),
        0 <= i < s.layers.len(),
        pass_fits(p, s.pos as int, s.cache.max_seq),
    ensures
        buffers_of(s, p, i).allow_all(ops_of(ffn_open(s.config, s.layers[i].spec_ffn(), p))),
{
    let c = s.config;
    let b = buffers_of(s, p, i);
    let rows = p.rows;
    lemma_pass_rows(b, p);
    lemma_room(b, rows as int);
    assert(layer_fits(c, s.cache, s.layers[i], i));
    match s.layers[i].spec_ffn() {
        Ffn::Dense(_) => {
            if p.chunk {
                lemma_ffn_chunk_ops(c, rows, p.spec_fine(), p.captured);
                lemma_ffn_chunk(b, rows);
            } else {
                lemma_ffn_ops(c, p.spec_fine());
                lemma_ffn(b);
            }
        },
        Ffn::Moe(_) => {
            let m = c.moe->0;
            let route = moe_route_ops(c, m, start(Buf::X));
            lemma_first_row(b, rows as int);
            lemma_route(b, m, start(Buf::X));
            lemma_ops_runs(route);
            lemma_ops_record(true, Probe::ResidPreFfn, Buf::X, rows, c.embedding_length);
            lemma_ops_concat(
                record(true, Probe::ResidPreFfn, Buf::X, rows, c.embedding_length),
                runs(route),
            );
            assert(Seq::<Op>::empty() + route =~= route);
            if p.chunk && !p.captured {
                lemma_chunk_route(b, m, rows);
                lemma_ops_runs(chunk_route_ops(c, m, rows));
            }
        },
    }
}

/// A row's residual is inside the buffer.
proof fn lemma_row(b: Buffers, rows: int, row: int)
    requires
        rows_fit(b, rows),
        0 <= row < rows,
    ensures
        row_inside(
            b,
            At { buf: Buf::X, offset: (row * b.config.embedding_length) as usize },
        ),
{
    let hidden = b.config.embedding_length as int;
    lemma_room(b, rows);
    assert(0 <= row * hidden && row * hidden + hidden <= rows * hidden) by (nonlinear_arith)
        requires
            0 <= row,
            row + 1 <= rows,
            0 <= hidden,
    ;
}

proof fn lemma_first_row(b: Buffers, rows: int)
    requires
        rows_fit(b, rows),
    ensures
        row_inside(b, start(Buf::X)),
{
    lemma_row(b, rows, 0);
    assert(0 * b.config.embedding_length == 0);
}

/// Whatever a layer runs, up to its router's choice, stays inside the
/// buffers, wherever in the context the pass is.
pub proof fn law_layers_stay_inside(s: ModelState, p: PassParams, i: int)
    requires
        s.valid(),
        s.settled(),
        consistent(s.config),
        0 <= i < s.layers.len(),
        s.layer_pos(i) == s.pos,
        pass_fits(p, s.pos as int, s.cache.max_seq),
    ensures
        buffers_of(s, p, i).allow_all(
            ops_of(
                layer_open(
                    s.config,
                    s.layers[i],
                    s.cache.attn[i],
                    s.cache.max_seq,
                    s.pos,
                    i,
                    p,
                ),
            ),
        ),
{
    let c = s.config;
    let (w, a, max_seq, pos) = (s.layers[i], s.cache.attn[i], s.cache.max_seq, s.pos);
    lemma_mix(s, p, i);
    lemma_ffn_open(s, p, i);
    lemma_open_parts(c, w, a, max_seq, pos, i, p);
    lemma_allow_concat(
        buffers_of(s, p, i),
        ops_of(mix_steps(c, w, a, max_seq, pos, p)),
        ops_of(ffn_open(c, w.spec_ffn(), p)),
    );
}

/// What begins and ends a pass stays inside the buffers.
pub proof fn law_pass_ends_stay_inside(s: ModelState, p: PassParams, i: int)
    requires
        s.valid(),
        consistent(s.config),
        pass_fits(p, s.pos as int, s.cache.max_seq),
    ensures
        buffers_of(s, p, i).allow_all(ops_of(embed_steps(s.config, p))),
        buffers_of(s, p, i).allow_all(ops_of(tail_steps(s.config, p))),
{
    let c = s.config;
    let b = buffers_of(s, p, i);
    lemma_pass_rows(b, p);
    lemma_room(b, p.rows as int);
    lemma_embed_ops(c, p);
    lemma_tail_ops(c, p);
    let embed = ops_of(embed_steps(c, p));
    assert(b.allows(embed[0]));
    assert(b.allows(embed[1]));
    assert forall|k: int| 0 <= k < embed.len() implies b.allows(#[trigger] embed[k]) by {
        assert(k == 0 || k == 1);
    }
    if p.want_logits {
        let tail = ops_of(tail_steps(c, p));
        lemma_row(b, p.rows as int, p.rows - 1);
        assert(tail[0] == tail_norm_ops(c, p)[0]);
        assert(tail[1] == lm_head_ops(c)[0]);
        match tail[0] {
            Op::Rmsnorm { rows, cols, .. } => {
                assert(rows * cols == cols) by (nonlinear_arith)
                    requires
                        rows == 1,
                ;
            },
            _ => {},
        }
        lemma_first_row(b, p.rows as int);
        assert(b.allows(tail[0]));
        assert(b.allows(tail[1]));
        assert(b.allows(tail[2]));
        assert forall|k: int| 0 <= k < tail.len() implies b.allows(#[trigger] tail[k]) by {
            assert(k == 0 || k == 1 || k == 2);
        }
    }
}

/// The experts a row chose stay inside the buffers, and so does the next
/// row's router.
pub proof fn law_routed_rows_stay_inside(
    s: ModelState,
    idx: Seq<i32>,
    plan: RoutedPlan,
    t: ModelState,
    seg: Segment,
)
    requires
        s.valid(),
        consistent(s.config),
        row_routed(s, idx, plan, t, seg),
    ensures
        ({
            let q = s.pending->0;
            let b = buffers_of(s, q.params, q.layer as int);
            &&& b.allow_all(plan.ops@)
            &&& q.row + 1 < q.params.rows ==> b.allow_all(ops_of(seg.steps@))
        }),
{
    let c = s.config;
    let q = s.pending->0;
    let i = q.layer as int;
    let b = buffers_of(s, q.params, i);
    let e = plan.experts@;
    let p = plan.placements@;
    assert(layer_fits(c, s.cache, s.layers[i], i));
    let m = c.moe->0;
    let x = At { buf: Buf::X, offset: (q.row * c.embedding_length) as usize };
    lemma_pass_rows(b, q.params);
    lemma_row(b, q.params.rows as int, q.row as int);
    lemma_moe_add(b, m, x);
    match s.experts {
        None => {
            lemma_staged(b, m, e, e.len());
            lemma_allow_concat(b, staged_ops(c, m, e, e.len()), moe_add_ops(c, x));
        },
        Some(held) => {
            lemma_cached(b, m, e, p, e.len());
            lemma_overlap(b, m, e, p);
            let work = if held.pipelines() && !q.params.captured {
                overlap_ops(c, m, e, p, overlap_steps(p, e.len()))
            } else {
                cached_ops(c, m, e, p, e.len())
            };
            lemma_allow_concat(b, work, moe_add_ops(c, x));
        },
    }
    if q.row + 1 < q.params.rows {
        let y = At { buf: Buf::X, offset: ((q.row + 1) * c.embedding_length) as usize };
        lemma_row(b, q.params.rows as int, q.row + 1);
        lemma_route(b, m, y);
        lemma_ops_runs(moe_route_ops(c, m, y));
    }
}

/// The experts a chunk chose stay inside the buffers, however its rows are
/// grouped.
pub proof fn law_routed_chunks_stay_inside(
    s: ModelState,
    idx: Seq<i32>,
    weights: Seq<u32>,
    plan: RoutedChunkPlan,
    t: ModelState,
    seg: Segment,
)
    requires
        s.valid(),
        consistent(s.config),
        chunk_routed(s, idx, weights, plan, t, seg),
    ensures
        buffers_of(s, s.pending->0.params, s.pending->0.layer as int).allow_all(plan.ops@),
{
    let c = s.config;
    let q = s.pending->0;
    let rows = q.params.rows;
    let i = q.layer as int;
    let b = buffers_of(s, q.params, i);
    assert(layer_fits(c, s.cache, s.layers[i], i));
    let m = c.moe->0;
    let n = rows * m.expert_used_count;
    let g = groups(idx, weights, m.expert_used_count as nat, m.expert_count as nat, n as nat);
    let p = match s.experts {
        None => None,
        Some(_) => Some(plan.placements@),
    };
    let e = touched(g, g.len());
    lemma_pass_rows(b, q.params);
    lemma_chunk_route(b, m, rows);
    lemma_routed_chunk(b, m, g, p, rows);
    lemma_allow_concat(
        b,
        routed_chunk_ops(c, m, g, e, p, e.len()),
        chunk_moe_add_ops(c, rows),
    );
}

} // verus!
