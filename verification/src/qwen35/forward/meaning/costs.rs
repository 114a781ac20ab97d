//! What a profiled stage is charged for is what it runs.

use crate::qwen35::config::ConfigModel;
use crate::qwen35::forward::attention::{
    head_ops, norm_ops, norm_terms, out_ops, out_terms, project_ops, qkv_terms,
};
use crate::qwen35::forward::attention_chunk::{chunk_out_ops, chunk_project_ops};
use crate::qwen35::forward::ffn::{
    chunk_down_ops, chunk_gate_up_ops, down_ops, down_terms, gate_up_ops, gate_up_terms,
    post_norm_ops, post_norm_terms,
};
use crate::qwen35::forward::gdn::{
    conv_ops, conv_terms, gdn_out_ops, gdn_out_terms, recur_ops, recur_terms,
};
use crate::qwen35::forward::gdn_chunk::{
    chunk_conv_ops, chunk_gate_ops, chunk_qkv_op, chunk_ssm_out_op,
};
use crate::qwen35::forward::plan::{Op, Term};
use vstd::prelude::*;

verus! {

/// What an operation is charged as; none for what a stage's cost leaves out.
pub open spec fn charged_as(op: Op) -> Option<Term> {
    match op {
        Op::Matvec { w, m, n, .. } => Some(Term::Project { w, m, n, rows: 1 }),
        Op::Matmul { w, m, n, rows, .. } => Some(Term::Project { w, m, n, rows }),
        Op::Rmsnorm { rows, cols, .. } => Some(Term::Norm { rows, cols }),
        Op::GdnConv1dDecode { channels, kernel_size } => Some(
            Term::GdnConv { channels, kernel_size, tokens: 1 },
        ),
        Op::GdnConv1dChunk { channels, kernel_size, chunk_len } => Some(
            Term::GdnConv { channels, kernel_size, tokens: chunk_len },
        ),
        Op::GdnRecurrenceDecode { num_heads, head_k_dim, head_v_dim, .. } => Some(
            Term::GdnRecur { heads: num_heads, head_k_dim, head_v_dim },
        ),
        _ => None,
    }
}

/// Everything these operations are charged as is among the terms, and every
/// term is what one of them is charged as.
pub open spec fn charges(terms: Seq<Term>, ops: Seq<Op>) -> bool {
    &&& forall|i: int|
        0 <= i < ops.len() && charged_as(#[trigger] ops[i]) is Some ==> terms.contains(
            charged_as(ops[i])->0,
        )
    &&& forall|j: int|
        0 <= j < terms.len() ==> exists|i: int|
            0 <= i < ops.len() && charged_as(#[trigger] ops[i]) == Some(#[trigger] terms[j])
}

proof fn lemma_listed(terms: Seq<Term>)
    ensures
        forall|j: int| 0 <= j < terms.len() ==> terms.contains(#[trigger] terms[j]),
{
}

/// A full-attention layer's stages are charged for what they run, one token
/// at a time and over a chunk.
pub proof fn law_attention_is_charged_for_what_it_runs(
    c: ConfigModel,
    gated: bool,
    rows: u32,
    pos: u32,
)
    ensures
        charges(norm_terms(c, rows), norm_ops(c, rows)),
        charges(qkv_terms(c, gated, 1), project_ops(c, gated) + head_ops(c, 1, pos)),
        charges(
            qkv_terms(c, gated, rows),
            chunk_project_ops(c, gated, rows) + head_ops(c, rows, pos),
        ),
        charges(out_terms(c, 1), out_ops(c, gated)),
        charges(out_terms(c, rows), chunk_out_ops(c, gated, rows)),
{
    lemma_listed(norm_terms(c, rows));
    let norm = norm_ops(c, rows);
    assert(charged_as(norm[0]) == Some(norm_terms(c, rows)[0]));
    lemma_qkv(c, gated, 1, pos, project_ops(c, gated));
    lemma_qkv(c, gated, rows, pos, chunk_project_ops(c, gated, rows));
    lemma_listed(out_terms(c, 1));
    lemma_listed(out_terms(c, rows));
    let (a, b) = (out_ops(c, gated), chunk_out_ops(c, gated, rows));
    assert(charged_as(a[a.len() - 2]) == Some(out_terms(c, 1)[0]));
    assert(charged_as(b[b.len() - 2]) == Some(out_terms(c, rows)[0]));
}

proof fn lemma_qkv(c: ConfigModel, gated: bool, rows: u32, pos: u32, project: Seq<Op>)
    requires
        project.len() == 3,
        charged_as(project[0]) == Some(qkv_terms(c, gated, rows)[0]),
        charged_as(project[1]) == Some(qkv_terms(c, gated, rows)[1]),
        charged_as(project[2]) == Some(qkv_terms(c, gated, rows)[2]),
    ensures
        charges(qkv_terms(c, gated, rows), project + head_ops(c, rows, pos)),
{
    let terms = qkv_terms(c, gated, rows);
    lemma_listed(terms);
    let ops = project + head_ops(c, rows, pos);
    assert(ops[0] == project[0]);
    assert(ops[1] == project[1]);
    assert(ops[2] == project[2]);
    assert(ops[3] == head_ops(c, rows, pos)[0]);
    assert(ops[4] == head_ops(c, rows, pos)[1]);
    assert(charged_as(ops[3]) == Some(terms[3]));
    assert(charged_as(ops[4]) == Some(terms[4]));
}

/// A linear-attention layer's stages are charged for what they run.
pub proof fn law_linear_attention_is_charged_for_what_it_runs(c: ConfigModel, rows: u32)
    ensures
        charges(conv_terms(c, 1), conv_ops(c)),
        charges(conv_terms(c, rows), chunk_qkv_op(c, rows) + chunk_conv_ops(c, rows)),
        charges(recur_terms(c.gdn), recur_ops(c.gdn)),
        charges(gdn_out_terms(c, 1), gdn_out_ops(c)),
        charges(gdn_out_terms(c, rows), chunk_gate_ops(c, rows) + chunk_ssm_out_op(c, rows)),
{
    let (t, ops) = (conv_terms(c, 1), conv_ops(c));
    lemma_listed(t);
    assert(charged_as(ops[0]) == Some(t[0]));
    assert(charged_as(ops[1]) == Some(t[1]));
    assert(charged_as(ops[2]) == Some(t[2]));
    assert(charged_as(ops[3]) == Some(t[3]));
    assert(charged_as(ops[4]) == Some(t[4]));
    let (t, ops) = (conv_terms(c, rows), chunk_qkv_op(c, rows) + chunk_conv_ops(c, rows));
    lemma_listed(t);
    assert(charged_as(ops[0]) == Some(t[0]));
    assert(charged_as(ops[1]) == Some(t[1]));
    assert(charged_as(ops[2]) == Some(t[2]));
    assert(charged_as(ops[3]) == Some(t[3]));
    assert(charged_as(ops[4]) == Some(t[4]));
    let (t, ops) = (recur_terms(c.gdn), recur_ops(c.gdn));
    lemma_listed(t);
    assert(charged_as(ops[0]) == Some(t[1]));
    assert(charged_as(ops[1]) == Some(t[2]));
    assert(charged_as(ops[2]) == Some(t[0]));
    let (t, ops) = (gdn_out_terms(c, 1), gdn_out_ops(c));
    lemma_listed(t);
    assert(charged_as(ops[0]) == Some(t[0]));
    assert(charged_as(ops[2]) == Some(t[1]));
    let (t, ops) = (gdn_out_terms(c, rows), chunk_gate_ops(c, rows) + chunk_ssm_out_op(c, rows));
    lemma_listed(t);
    assert(charged_as(ops[0]) == Some(t[0]));
    assert(charged_as(ops[2]) == Some(t[1]));
}

/// A dense feed-forward part's stages are charged for what they run.
pub proof fn law_feed_forward_is_charged_for_what_it_runs(c: ConfigModel, rows: u32)
    ensures
        charges(post_norm_terms(c, rows), post_norm_ops(c, rows)),
        charges(gate_up_terms(c, 1), gate_up_ops(c)),
        charges(gate_up_terms(c, rows), chunk_gate_up_ops(c, rows)),
        charges(down_terms(c, 1), down_ops(c)),
        charges(down_terms(c, rows), chunk_down_ops(c, rows)),
{
    lemma_listed(post_norm_terms(c, rows));
    assert(charged_as(post_norm_ops(c, rows)[0]) == Some(post_norm_terms(c, rows)[0]));
    lemma_listed(gate_up_terms(c, 1));
    assert(charged_as(gate_up_ops(c)[0]) == Some(gate_up_terms(c, 1)[0]));
    assert(charged_as(gate_up_ops(c)[1]) == Some(gate_up_terms(c, 1)[1]));
    lemma_listed(gate_up_terms(c, rows));
    let ops = chunk_gate_up_ops(c, rows);
    assert(charged_as(ops[0]) == Some(gate_up_terms(c, rows)[0]));
    assert(charged_as(ops[1]) == Some(gate_up_terms(c, rows)[1]));
    lemma_listed(down_terms(c, 1));
    assert(charged_as(down_ops(c)[0]) == Some(down_terms(c, 1)[0]));
    lemma_listed(down_terms(c, rows));
    assert(charged_as(chunk_down_ops(c, rows)[0]) == Some(down_terms(c, rows)[0]));
}

} // verus!
