//! Operations of a chunk.

use super::token::{lemma_gate, lemma_heads, lemma_norm, lemma_room, rows_fit};
use super::{lemma_allow_concat, Buffers};
use crate::math::lemma_ceil_div;
use crate::qwen35::cache::plane::state_elems;
use crate::qwen35::forward::attention::{gate_ops, head_ops, norm_ops};
use crate::qwen35::forward::attention_chunk::{
    chunk_out_ops, chunk_project_ops, chunk_qkv_ops, chunk_split_ops,
};
use crate::qwen35::forward::ffn::{
    chunk_down_ops, chunk_gate_up_ops, ffn_add_ops, ffn_chunk_ops, post_norm_ops,
};
use crate::qwen35::forward::gdn_chunk::{
    chunk_conv_ops, chunk_gate_ops, chunk_gdn_add_op, chunk_qkv_op, chunk_ssm_out_op, gdn_chunk_ops,
};
use crate::qwen35::forward::gdn_chunkwise::{
    chunkwise_ops, dispatch_for, law_tiles_cover_the_chunk, tile_count, tile_len, tile_ops,
    tile_start, tiles_ops, GDN_RECUR_TILE,
};
use vstd::prelude::*;

verus! {

proof fn lemma_chunk_project(b: Buffers, gated: bool, rows: u32)
    requires
        rows_fit(b, rows as int),
    ensures
        b.allow_all(chunk_project_ops(b.config, gated, rows)),
{
    let ops = chunk_project_ops(b.config, gated, rows);
    lemma_room(b, rows as int);
    assert(b.allows(ops[0]));
    assert(b.allows(ops[1]));
    assert(b.allows(ops[2]));
    assert forall|i: int| 0 <= i < ops.len() implies b.allows(#[trigger] ops[i]) by {
        assert(i == 0 || i == 1 || i == 2);
    }
}

proof fn lemma_chunk_splits(b: Buffers, gated: bool, rows: u32)
    requires
        rows_fit(b, rows as int),
        2 * b.config.head_dim <= u32::MAX,
    ensures
        b.allow_all(chunk_split_ops(b.config, gated, rows)),
{
    let c = b.config;
    let ops = chunk_split_ops(c, gated, rows);
    lemma_room(b, rows as int);
    assert(c.head_count * (2 * c.head_dim) == 2 * (c.head_count * c.head_dim)) by (nonlinear_arith);
    assert(b.allows(ops[0]));
    if gated {
        assert(b.allows(ops[1]));
    }
    assert forall|i: int| 0 <= i < ops.len() implies b.allows(#[trigger] ops[i]) by {
        assert(i == 0 || i == 1);
    }
}

/// Norm, projections and heads of a chunk's attention, and its output.
pub proof fn lemma_chunk_sides(b: Buffers, gated: bool, pos: u32, rows: u32)
    requires
        rows_fit(b, rows as int),
        2 * b.config.head_dim <= u32::MAX,
    ensures
        b.allow_all(norm_ops(b.config, rows) + chunk_qkv_ops(b.config, gated, rows, pos)),
        b.allow_all(chunk_out_ops(b.config, gated, rows)),
{
    let c = b.config;
    let project = chunk_project_ops(c, gated, rows);
    let split = chunk_split_ops(c, gated, rows);
    lemma_norm(b, rows);
    lemma_chunk_project(b, gated, rows);
    lemma_chunk_splits(b, gated, rows);
    lemma_heads(b, rows, pos);
    lemma_allow_concat(b, project, split);
    lemma_allow_concat(b, project + split, head_ops(c, rows, pos));
    lemma_allow_concat(b, norm_ops(c, rows), chunk_qkv_ops(c, gated, rows, pos));
    lemma_gate(b, gated, rows);
    lemma_room(b, rows as int);
    let out = chunk_out_ops(c, gated, rows);
    let tail = seq![out[out.len() - 2], out[out.len() - 1]];
    assert(b.allows(tail[0]));
    assert(b.allows(tail[1]));
    assert forall|i: int| 0 <= i < tail.len() implies b.allows(#[trigger] tail[i]) by {
        assert(i == 0 || i == 1);
    }
    lemma_allow_concat(b, gate_ops(c, gated, rows), tail);
    assert(out =~= gate_ops(c, gated, rows) + tail);
}

proof fn lemma_chunk_conv(b: Buffers, rows: u32)
    requires
        rows_fit(b, rows as int),
    ensures
        b.allow_all(chunk_qkv_op(b.config, rows) + chunk_conv_ops(b.config, rows)),
{
    let g = b.config.gdn;
    let first = chunk_qkv_op(b.config, rows);
    let ops = chunk_conv_ops(b.config, rows);
    lemma_room(b, rows as int);
    assert(0 <= g.conv_dim * (g.conv_kernel - 1)) by (nonlinear_arith)
        requires
            1 <= g.conv_kernel,
            0 <= g.conv_dim,
    ;
    assert(0 <= g.conv_dim * g.conv_kernel) by (nonlinear_arith);
    assert(b.allows(first[0]));
    assert(b.allows(ops[0]));
    assert(b.allows(ops[1]));
    assert(b.allows(ops[2]));
    assert(b.allows(ops[3]));
    assert(b.allows(ops[4]));
    assert(b.allows(ops[5]));
    assert forall|i: int| 0 <= i < ops.len() implies b.allows(#[trigger] ops[i]) by {
        assert(i == 0 || i == 1 || i == 2 || i == 3 || i == 4 || i == 5);
    }
    lemma_allow_concat(b, first, ops);
}

/// A tile's rows of a width that is counted by token.
proof fn lemma_tile_rows(from: int, len: int, rows: int, width: int)
    requires
        0 <= from,
        0 <= len,
        from + len <= rows,
        0 <= width,
    ensures
        0 <= from * width,
        0 <= len * width,
        from * width + len * width <= rows * width,
{
    assert(0 <= from * width && 0 <= len * width && from * width + len * width <= rows * width)
        by (nonlinear_arith)
        requires
            0 <= from,
            0 <= len,
            from + len <= rows,
            0 <= width,
    ;
}

proof fn lemma_tile(b: Buffers, from: int, len: u32, rows: int)
    requires
        rows_fit(b, rows),
        0 <= from,
        from + len <= rows,
    ensures
        b.allow_all(tile_ops(b.config.gdn, dispatch_for(b.config.gdn), from, len)),
{
    let g = b.config.gdn;
    let ops = tile_ops(g, dispatch_for(g), from, len);
    lemma_room(b, rows);
    lemma_tile_rows(from, len as int, rows, g.conv_dim as int);
    lemma_tile_rows(from, len as int, rows, g.num_v_heads as int);
    lemma_tile_rows(from, len as int, rows, g.value_dim as int);
    assert(0 <= g.num_v_heads * g.head_k_dim) by (nonlinear_arith);
    assert(0 <= state_elems(g)) by (nonlinear_arith)
        requires
            0 <= g.num_v_heads * g.head_k_dim,
            state_elems(g) == g.num_v_heads * g.head_k_dim * g.head_v_dim,
            0 <= g.head_v_dim,
    ;
    assert(b.allows(ops[0]));
    assert(b.allows(ops[1]));
    assert(b.allows(ops[2]));
    assert(b.allows(ops[3]));
    assert(b.allows(ops[4]));
    assert(b.allows(ops[5]));
    assert(b.allows(ops[6]));
    assert forall|i: int| 0 <= i < ops.len() implies b.allows(#[trigger] ops[i]) by {
        assert(i == 0 || i == 1 || i == 2 || i == 3 || i == 4 || i == 5 || i == 6);
    }
}

proof fn lemma_tiles(b: Buffers, rows: u32, k: nat)
    requires
        rows_fit(b, rows as int),
        k <= tile_count(rows as int),
    ensures
        b.allow_all(tiles_ops(b.config.gdn, rows as int, k)),
    decreases k,
{
    let g = b.config.gdn;
    if k > 0 {
        let n = rows as int;
        let j = k - 1;
        lemma_tiles(b, rows, j as nat);
        law_tiles_cover_the_chunk(n, j);
        lemma_ceil_div(n, GDN_RECUR_TILE as int);
        lemma_tile(b, tile_start(j), tile_len(n, j) as u32, n);
        lemma_allow_concat(
            b,
            tiles_ops(g, n, j as nat),
            tile_ops(g, dispatch_for(g), tile_start(j), tile_len(n, j) as u32),
        );
    }
}

/// A chunk's linear attention.
pub proof fn lemma_gdn_chunk(b: Buffers, rows: u32)
    requires
        rows_fit(b, rows as int),
    ensures
        b.allow_all(gdn_chunk_ops(b.config, rows)),
{
    let c = b.config;
    let n = rows as int;
    let conv = chunk_qkv_op(c, rows) + chunk_conv_ops(c, rows);
    let recur = chunkwise_ops(c.gdn, n);
    let gate = chunk_gate_ops(c, rows);
    let out = chunk_ssm_out_op(c, rows);
    let add = chunk_gdn_add_op(c, rows);
    lemma_ceil_div(n, GDN_RECUR_TILE as int);
    lemma_norm(b, rows);
    lemma_chunk_conv(b, rows);
    lemma_tiles(b, rows, tile_count(n) as nat);
    lemma_room(b, n);
    assert((rows * c.gdn.num_v_heads) * c.gdn.head_v_dim == rows * (c.gdn.num_v_heads
        * c.gdn.head_v_dim)) by (nonlinear_arith);
    assert(b.allows(gate[0]));
    assert(b.allows(gate[1]));
    assert forall|i: int| 0 <= i < gate.len() implies b.allows(#[trigger] gate[i]) by {
        assert(i == 0 || i == 1);
    }
    assert(b.allows(out[0]));
    assert(b.allows(add[0]));
    lemma_allow_concat(b, gate, out);
    lemma_allow_concat(b, gate + out, add);
    lemma_allow_concat(b, norm_ops(c, rows), conv);
    lemma_allow_concat(b, norm_ops(c, rows) + conv, recur);
    lemma_allow_concat(b, norm_ops(c, rows) + conv + recur, gate + out + add);
}

/// A chunk's dense feed-forward part.
pub proof fn lemma_ffn_chunk(b: Buffers, rows: u32)
    requires
        rows_fit(b, rows as int),
    ensures
        b.allow_all(ffn_chunk_ops(b.config, rows)),
{
    let c = b.config;
    let up = chunk_gate_up_ops(c, rows);
    let down = chunk_down_ops(c, rows);
    let add = ffn_add_ops(c, rows);
    lemma_room(b, rows as int);
    lemma_norm(b, rows);
    assert(b.allows(up[0]));
    assert(b.allows(up[1]));
    assert(b.allows(up[2]));
    assert forall|i: int| 0 <= i < up.len() implies b.allows(#[trigger] up[i]) by {
        assert(i == 0 || i == 1 || i == 2);
    }
    assert(b.allows(down[0]));
    assert(b.allows(add[0]));
    lemma_allow_concat(b, post_norm_ops(c, rows), up);
    lemma_allow_concat(b, post_norm_ops(c, rows) + up, down);
    lemma_allow_concat(b, post_norm_ops(c, rows) + up + down, add);
}

} // verus!
