//! Operations that one token and a chunk share, and those of one token.

use super::{dims_agree, lemma_allow_concat, lemma_allow_push, Buffers};
use crate::qwen35::cache::plane::state_elems;
use crate::qwen35::forward::attention::{
    gate_ops, head_ops, norm_ops, out_ops, project_ops, split_ops,
};
use crate::qwen35::forward::dims::{dims_fit, kv_dim, lemma_scaled, lemma_widths, q_dim};
use crate::qwen35::forward::ffn::{down_ops, ffn_add_ops, ffn_ops, gate_up_ops, post_norm_ops};
use crate::qwen35::forward::gdn::{conv_ops, conv_part, gdn_ops, gdn_out_ops, recur_ops};
use crate::qwen35::forward::plan::{At, Buf, Op};
use crate::qwen35::forward::scratch::activations;
use vstd::prelude::*;

verus! {

/// A pass of `rows` tokens with these buffers.
pub open spec fn rows_fit(b: Buffers, rows: int) -> bool {
    &&& dims_fit(b.config, b.rows())
    &&& 1 <= rows <= b.rows()
    &&& 1 <= b.config.head_count_kv
    &&& dims_agree(b.config.gdn)
}

/// Widths that count tokens are inside the buffers that count them.
pub proof fn lemma_room(b: Buffers, rows: int)
    requires
        rows_fit(b, rows),
    ensures
        ({
            let c = b.config;
            let s = activations(c, b.rows());
            let n = b.rows();
            &&& s.x == n * c.embedding_length
            &&& s.gdn_qkv == n * c.gdn.conv_dim
            &&& s.gdn_y == n * c.gdn.value_dim
            &&& s.gdn_beta == n * c.gdn.num_v_heads
            &&& s.attn_q_raw == n * (2 * q_dim(c))
            &&& s.attn_q == n * q_dim(c)
            &&& s.attn_k == n * kv_dim(c)
            &&& s.ffn_gate == n * c.feed_forward_length
            &&& s.token_ids == n
            &&& 0 <= rows * c.embedding_length <= s.x
            &&& 0 <= rows * c.gdn.conv_dim <= s.gdn_qkv
            &&& 0 <= rows * c.gdn.value_dim <= s.gdn_y
            &&& 0 <= rows * c.gdn.num_v_heads <= s.gdn_beta
            &&& 0 <= rows * (2 * q_dim(c)) <= s.attn_q_raw
            &&& 0 <= rows * q_dim(c) <= s.attn_q
            &&& 0 <= rows * q_dim(c) <= s.attn_q_raw
            &&& 0 <= rows * kv_dim(c) <= s.attn_k
            &&& 0 <= rows * c.feed_forward_length <= s.ffn_gate
            &&& 0 <= q_dim(c) <= u32::MAX / 2
            &&& 0 <= kv_dim(c) <= u32::MAX
            &&& (rows * c.head_count) * c.head_dim == rows * q_dim(c)
            &&& (rows * c.head_count_kv) * c.head_dim == rows * kv_dim(c)
            &&& 0 <= rows * c.head_count <= u32::MAX
            &&& 0 <= rows * c.head_count_kv <= u32::MAX
        }),
{
    let c = b.config;
    let n = b.rows();
    lemma_widths(c, n);
    lemma_scaled(rows, n, c.embedding_length as int);
    lemma_scaled(rows, n, c.gdn.conv_dim as int);
    lemma_scaled(rows, n, c.gdn.value_dim as int);
    lemma_scaled(rows, n, c.gdn.num_v_heads as int);
    lemma_scaled(rows, n, 2 * q_dim(c));
    lemma_scaled(rows, n, q_dim(c));
    lemma_scaled(rows, n, kv_dim(c));
    lemma_scaled(rows, n, c.feed_forward_length as int);
    lemma_scaled(rows, n, c.head_count as int);
    lemma_scaled(rows, n, c.head_count_kv as int);
    assert(rows * q_dim(c) <= rows * (2 * q_dim(c))) by (nonlinear_arith)
        requires
            0 <= rows,
            0 <= q_dim(c),
    ;
    assert((rows * c.head_count) * c.head_dim == rows * (c.head_count * c.head_dim))
        by (nonlinear_arith);
    assert((rows * c.head_count_kv) * c.head_dim == rows * (c.head_count_kv * c.head_dim))
        by (nonlinear_arith);
}

pub proof fn lemma_norm(b: Buffers, rows: u32)
    requires
        rows_fit(b, rows as int),
    ensures
        b.allow_all(norm_ops(b.config, rows)),
        b.allow_all(post_norm_ops(b.config, rows)),
{
    lemma_room(b, rows as int);
    assert(b.allows(norm_ops(b.config, rows)[0]));
    assert(b.allows(post_norm_ops(b.config, rows)[0]));
}

pub proof fn lemma_heads(b: Buffers, rows: u32, pos: u32)
    requires
        rows_fit(b, rows as int),
    ensures
        b.allow_all(head_ops(b.config, rows, pos)),
{
    let c = b.config;
    let ops = head_ops(c, rows, pos);
    lemma_room(b, rows as int);
    assert(b.allows(ops[0]));
    assert(b.allows(ops[1]));
    assert(b.allows(ops[2]));
    assert(b.allows(ops[3]));
    assert forall|i: int| 0 <= i < ops.len() implies b.allows(#[trigger] ops[i]) by {
        assert(i == 0 || i == 1 || i == 2 || i == 3);
    }
}

pub proof fn lemma_gate(b: Buffers, gated: bool, rows: u32)
    requires
        rows_fit(b, rows as int),
    ensures
        b.allow_all(gate_ops(b.config, gated, rows)),
{
    lemma_room(b, rows as int);
    if gated {
        assert(b.allows(gate_ops(b.config, gated, rows)[0]));
    }
}

proof fn lemma_project(b: Buffers, gated: bool)
    requires
        rows_fit(b, 1),
    ensures
        b.allow_all(project_ops(b.config, gated)),
{
    let ops = project_ops(b.config, gated);
    lemma_room(b, 1);
    assert(b.allows(ops[0]));
    assert(b.allows(ops[1]));
    assert(b.allows(ops[2]));
    assert forall|i: int| 0 <= i < ops.len() implies b.allows(#[trigger] ops[i]) by {
        assert(i == 0 || i == 1 || i == 2);
    }
}

proof fn lemma_splits(b: Buffers, gated: bool, heads: nat)
    requires
        rows_fit(b, 1),
        heads <= b.config.head_count,
    ensures
        b.allow_all(split_ops(gated, heads, b.config.head_dim)),
    decreases heads,
{
    let c = b.config;
    let d = c.head_dim;
    if heads > 0 {
        let h = heads - 1;
        let before = split_ops(gated, h as nat, d);
        lemma_splits(b, gated, h as nat);
        lemma_room(b, 1);
        lemma_scaled(h, c.head_count as int, d as int);
        assert(h * d + d <= c.head_count * d) by (nonlinear_arith)
            requires
                h + 1 <= c.head_count,
                0 <= d,
        ;
        assert(h * (2 * d) == 2 * (h * d)) by (nonlinear_arith);
        let stride = if gated {
            2 * d
        } else {
            d as int
        };
        let query = Op::CopyDevice {
            dst: At { buf: Buf::AttnQ, offset: (h * d) as usize },
            src: At { buf: Buf::AttnQRaw, offset: (h * stride) as usize },
            len: d as usize,
        };
        assert(b.allows(query));
        lemma_allow_push(b, before, query);
        if gated {
            let gate = Op::CopyDevice {
                dst: At { buf: Buf::AttnGate, offset: (h * d) as usize },
                src: At { buf: Buf::AttnQRaw, offset: (h * stride + d) as usize },
                len: d as usize,
            };
            assert(b.allows(gate));
            lemma_allow_push(b, before.push(query), gate);
        }
    }
}

/// Projections, heads and output of one token's attention.
pub proof fn lemma_attention_sides(b: Buffers, gated: bool, pos: u32)
    requires
        rows_fit(b, 1),
    ensures
        b.allow_all(
            norm_ops(b.config, 1) + (project_ops(b.config, gated) + split_ops(
                gated,
                b.config.head_count as nat,
                b.config.head_dim,
            ) + head_ops(b.config, 1, pos)),
        ),
        b.allow_all(out_ops(b.config, gated)),
{
    let c = b.config;
    let split = split_ops(gated, c.head_count as nat, c.head_dim);
    lemma_norm(b, 1);
    lemma_project(b, gated);
    lemma_splits(b, gated, c.head_count as nat);
    lemma_heads(b, 1, pos);
    lemma_allow_concat(b, project_ops(c, gated), split);
    lemma_allow_concat(b, project_ops(c, gated) + split, head_ops(c, 1, pos));
    lemma_allow_concat(
        b,
        norm_ops(c, 1),
        project_ops(c, gated) + split + head_ops(c, 1, pos),
    );
    lemma_gate(b, gated, 1);
    lemma_room(b, 1);
    let tail = seq![
        out_ops(c, gated)[out_ops(c, gated).len() - 2],
        out_ops(c, gated)[out_ops(c, gated).len() - 1],
    ];
    assert(b.allows(tail[0]));
    assert(b.allows(tail[1]));
    assert forall|i: int| 0 <= i < tail.len() implies b.allows(#[trigger] tail[i]) by {
        assert(i == 0 || i == 1);
    }
    lemma_allow_concat(b, gate_ops(c, gated, 1), tail);
    assert(out_ops(c, gated) =~= gate_ops(c, gated, 1) + tail);
}

proof fn lemma_conv(b: Buffers)
    requires
        rows_fit(b, 1),
    ensures
        b.allow_all(conv_ops(b.config)),
{
    let ops = conv_ops(b.config);
    let g = b.config.gdn;
    lemma_room(b, 1);
    assert(0 <= g.conv_dim * (g.conv_kernel - 1)) by (nonlinear_arith)
        requires
            1 <= g.conv_kernel,
            0 <= g.conv_dim,
    ;
    assert(0 <= g.conv_dim * g.conv_kernel) by (nonlinear_arith);
    assert(b.allows(ops[0]));
    assert(b.allows(ops[1]));
    assert(b.allows(ops[2]));
    assert(b.allows(ops[3]));
    assert(b.allows(ops[4]));
    assert(b.allows(ops[5]));
    assert forall|i: int| 0 <= i < ops.len() implies b.allows(#[trigger] ops[i]) by {
        assert(i == 0 || i == 1 || i == 2 || i == 3 || i == 4 || i == 5);
    }
}

proof fn lemma_recur(b: Buffers)
    requires
        rows_fit(b, 1),
    ensures
        b.allow_all(recur_ops(b.config.gdn)),
{
    let g = b.config.gdn;
    let ops = recur_ops(g);
    lemma_room(b, 1);
    assert(0 <= g.num_v_heads * g.head_k_dim) by (nonlinear_arith);
    assert(0 <= state_elems(g)) by (nonlinear_arith)
        requires
            0 <= g.num_v_heads * g.head_k_dim,
            state_elems(g) == g.num_v_heads * g.head_k_dim * g.head_v_dim,
            0 <= g.head_v_dim,
    ;
    assert(conv_part(g, 1).offset == g.key_dim);
    assert(conv_part(g, 2).offset == 2 * g.key_dim);
    assert(conv_part(g, 0).offset == 0);
    assert(b.allows(ops[0]));
    assert(b.allows(ops[1]));
    assert(b.allows(ops[2]));
    assert forall|i: int| 0 <= i < ops.len() implies b.allows(#[trigger] ops[i]) by {
        assert(i == 0 || i == 1 || i == 2);
    }
}

/// One token's linear attention.
pub proof fn lemma_gdn(b: Buffers)
    requires
        rows_fit(b, 1),
    ensures
        b.allow_all(gdn_ops(b.config)),
{
    let c = b.config;
    let out = gdn_out_ops(c);
    lemma_room(b, 1);
    assert(b.allows(out[0]));
    assert(b.allows(out[1]));
    assert(b.allows(out[2]));
    assert(b.allows(out[3]));
    assert forall|i: int| 0 <= i < out.len() implies b.allows(#[trigger] out[i]) by {
        assert(i == 0 || i == 1 || i == 2 || i == 3);
    }
    lemma_norm(b, 1);
    lemma_conv(b);
    lemma_recur(b);
    lemma_allow_concat(b, norm_ops(c, 1), conv_ops(c));
    lemma_allow_concat(b, norm_ops(c, 1) + conv_ops(c), recur_ops(c.gdn));
    lemma_allow_concat(b, norm_ops(c, 1) + conv_ops(c) + recur_ops(c.gdn), out);
}

/// One token's dense feed-forward part.
pub proof fn lemma_ffn(b: Buffers)
    requires
        rows_fit(b, 1),
    ensures
        b.allow_all(ffn_ops(b.config)),
{
    let c = b.config;
    let up = gate_up_ops(c);
    let down = down_ops(c);
    let add = ffn_add_ops(c, 1);
    lemma_room(b, 1);
    assert(b.allows(up[0]));
    assert(b.allows(up[1]));
    assert(b.allows(up[2]));
    assert forall|i: int| 0 <= i < up.len() implies b.allows(#[trigger] up[i]) by {
        assert(i == 0 || i == 1 || i == 2);
    }
    assert(b.allows(down[0]));
    assert(b.allows(add[0]));
    lemma_norm(b, 1);
    lemma_allow_concat(b, post_norm_ops(c, 1), up);
    lemma_allow_concat(b, post_norm_ops(c, 1) + up, down);
    lemma_allow_concat(b, post_norm_ops(c, 1) + up + down, add);
}

} // verus!
