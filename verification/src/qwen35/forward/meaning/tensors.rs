//! The tensors that the operations of a pass read are those that are loaded:
//! each under its own name, and in the shape the operation takes it to have.

use crate::qwen35::config::{ConfigModel, MoeConfig};
use crate::qwen35::forward::attention::{head_ops, norm_ops, out_ops, project_ops};
use crate::qwen35::forward::attention_chunk::{chunk_out_ops, chunk_project_ops};
use crate::qwen35::forward::ffn::{
    chunk_down_ops, chunk_gate_up_ops, down_ops, gate_up_ops, post_norm_ops,
};
use crate::qwen35::forward::gdn::{conv_ops, gdn_out_ops, recur_ops};
use crate::qwen35::forward::gdn_chunk::{
    chunk_conv_ops, chunk_gate_ops, chunk_qkv_op, chunk_ssm_out_op,
};
use crate::qwen35::forward::layer::PassParams;
use crate::qwen35::forward::model::pass::{lm_head_ops, tail_norm_ops};
use crate::qwen35::forward::moe::{expert_ops, moe_route_ops, ExpertAt};
use crate::qwen35::forward::moe_chunk::{chunk_route_ops, group_ops};
use crate::qwen35::forward::plan::{At, Buf, ExpertPart, Linear, Op};
use crate::qwen35::weights::{
    attn_loads, ffn_loads, gdn_loads, layer_tensor, model_loads, LoadModel, TensorRole,
};
use vstd::prelude::*;

verus! {

/// What a layer's projection is called in a checkpoint.
pub open spec fn linear_name(w: Linear) -> Seq<char> {
    match w {
        Linear::AttnQ => ".attn_q.weight"@,
        Linear::AttnK => ".attn_k.weight"@,
        Linear::AttnV => ".attn_v.weight"@,
        Linear::AttnOutput => ".attn_output.weight"@,
        Linear::AttnQkv => ".attn_qkv.weight"@,
        Linear::AttnGate => ".attn_gate.weight"@,
        Linear::SsmAlpha => ".ssm_alpha.weight"@,
        Linear::SsmBeta => ".ssm_beta.weight"@,
        Linear::SsmOut => ".ssm_out.weight"@,
        Linear::FfnGate => ".ffn_gate.weight"@,
        Linear::FfnUp => ".ffn_up.weight"@,
        Linear::FfnDown => ".ffn_down.weight"@,
        Linear::SharedGate => ".ffn_gate_shexp.weight"@,
        Linear::SharedUp => ".ffn_up_shexp.weight"@,
        Linear::SharedDown => ".ffn_down_shexp.weight"@,
        Linear::Output => "output.weight"@,
    }
}

/// What a layer's norm is called; the scales of unit-length heads are in no
/// checkpoint.
pub open spec fn norm_name(b: Buf) -> Option<Seq<char>> {
    match b {
        Buf::AttnNorm => Some(".attn_norm.weight"@),
        Buf::AttnQNorm => Some(".attn_q_norm.weight"@),
        Buf::AttnKNorm => Some(".attn_k_norm.weight"@),
        Buf::PostAttentionNorm => Some(".post_attention_norm.weight"@),
        Buf::SsmNorm => Some(".ssm_norm.weight"@),
        _ => None,
    }
}

/// What a part of a layer's experts is called.
pub open spec fn expert_name(p: ExpertPart) -> Seq<char> {
    match p {
        ExpertPart::Gate => ".ffn_gate_exps.weight"@,
        ExpertPart::Up => ".ffn_up_exps.weight"@,
        ExpertPart::Down => ".ffn_down_exps.weight"@,
    }
}

/// A tensor of a layer is loaded.
pub open spec fn loaded(
    loads: Seq<LoadModel>,
    layer: u32,
    name: Seq<char>,
    role: TensorRole,
    m: u32,
    n: u32,
) -> bool {
    loads.contains(LoadModel { name: layer_tensor(layer, name), role, m, n })
}

/// Every tensor that an operation reads is loaded, in the operation's shape.
pub open spec fn served(loads: Seq<LoadModel>, layer: u32, experts: u32, op: Op) -> bool {
    match op {
        Op::Matvec { w, m, n, .. } => loaded(
            loads,
            layer,
            linear_name(w),
            TensorRole::Linear,
            m,
            n,
        ),
        Op::Matmul { w, m, n, .. } => loaded(
            loads,
            layer,
            linear_name(w),
            TensorRole::Linear,
            m,
            n,
        ),
        Op::Rmsnorm { weight, cols, .. } => match norm_name(weight) {
            Some(name) => loaded(loads, layer, name, TensorRole::Vector, cols, 1),
            None => weight == Buf::L2AlphaK || weight == Buf::L2AlphaQ,
        },
        Op::GemvF32 { w, m, n, .. } => single_loaded(loads, layer, w, m, n),
        Op::GemmF32 { w, m, n, .. } => single_loaded(loads, layer, w, m, n),
        Op::GdnConv1dDecode { channels, kernel_size } => conv_loaded(
            loads,
            layer,
            channels,
            kernel_size,
        ),
        Op::GdnConv1dChunk { channels, kernel_size, .. } => conv_loaded(
            loads,
            layer,
            channels,
            kernel_size,
        ),
        Op::GdnGate { n } => gate_loaded(loads, layer, n),
        Op::GdnGateChunk { heads, .. } => gate_loaded(loads, layer, heads),
        Op::GemvQuant { part, m, n, .. } => loaded(
            loads,
            layer,
            expert_name(part),
            TensorRole::Experts { count: experts },
            m,
            n,
        ),
        Op::GemmQuant { part, m, n, .. } => loaded(
            loads,
            layer,
            expert_name(part),
            TensorRole::Experts { count: experts },
            m,
            n,
        ),
        _ => true,
    }
}

/// A router or a shared expert's gate is loaded.
pub open spec fn single_loaded(loads: Seq<LoadModel>, layer: u32, w: Buf, m: u32, n: u32) -> bool {
    match w {
        Buf::Router => loaded(
            loads,
            layer,
            ".ffn_gate_inp.weight"@,
            TensorRole::MatrixF32,
            m,
            n,
        ),
        Buf::SharedGate => m == 1 && loaded(
            loads,
            layer,
            ".ffn_gate_inp_shexp.weight"@,
            TensorRole::Vector,
            n,
            1,
        ),
        _ => false,
    }
}

/// A convolution's kernel is loaded.
pub open spec fn conv_loaded(loads: Seq<LoadModel>, layer: u32, channels: u32, kernel: u32) -> bool {
    loaded(loads, layer, ".ssm_conv1d.weight"@, TensorRole::MatrixF32, channels, kernel)
}

/// What the gates of a linear-attention layer read is loaded.
pub open spec fn gate_loaded(loads: Seq<LoadModel>, layer: u32, heads: u32) -> bool {
    &&& loaded(loads, layer, ".ssm_a"@, TensorRole::Vector, heads, 1)
    &&& loaded(loads, layer, ".ssm_dt.bias"@, TensorRole::Vector, heads, 1)
}

/// All of these operations find their tensors.
pub open spec fn all_served(loads: Seq<LoadModel>, layer: u32, experts: u32, ops: Seq<Op>) -> bool {
    forall|i: int| 0 <= i < ops.len() ==> served(loads, layer, experts, #[trigger] ops[i])
}

/// What stands in a list is in it.
proof fn lemma_listed(loads: Seq<LoadModel>)
    ensures
        forall|i: int| 0 <= i < loads.len() ==> loads.contains(#[trigger] loads[i]),
{
}

/// A full-attention layer's projections and norms are loaded, for tokens and
/// for chunks.
pub proof fn law_attention_finds_its_tensors(
    c: ConfigModel,
    layer: u32,
    gated: bool,
    rows: u32,
    pos: u32,
)
    ensures
        ({
            let loads = attn_loads(c, layer, gated);
            &&& all_served(loads, layer, 0, norm_ops(c, rows))
            &&& all_served(loads, layer, 0, project_ops(c, gated))
            &&& all_served(loads, layer, 0, chunk_project_ops(c, gated, rows))
            &&& all_served(loads, layer, 0, head_ops(c, rows, pos))
            &&& all_served(loads, layer, 0, out_ops(c, gated))
            &&& all_served(loads, layer, 0, chunk_out_ops(c, gated, rows))
            &&& all_served(loads, layer, 0, post_norm_ops(c, rows))
        }),
{
    let loads = attn_loads(c, layer, gated);
    lemma_listed(loads);
    assert(loads[0].name == layer_tensor(layer, ".attn_norm.weight"@));
    assert(loads[1].name == layer_tensor(layer, ".attn_q.weight"@));
    assert(loads[2].name == layer_tensor(layer, ".attn_q_norm.weight"@));
    assert(loads[3].name == layer_tensor(layer, ".attn_k.weight"@));
    assert(loads[4].name == layer_tensor(layer, ".attn_k_norm.weight"@));
    assert(loads[5].name == layer_tensor(layer, ".attn_v.weight"@));
    assert(loads[6].name == layer_tensor(layer, ".attn_output.weight"@));
    assert(loads[7].name == layer_tensor(layer, ".post_attention_norm.weight"@));
}

/// A linear-attention layer's projections, norms, convolution and gates are
/// loaded, for tokens and for chunks.
pub proof fn law_linear_attention_finds_its_tensors(c: ConfigModel, layer: u32, rows: u32)
    ensures
        ({
            let loads = gdn_loads(c, layer);
            &&& all_served(loads, layer, 0, norm_ops(c, rows))
            &&& all_served(loads, layer, 0, conv_ops(c))
            &&& all_served(loads, layer, 0, recur_ops(c.gdn))
            &&& all_served(loads, layer, 0, gdn_out_ops(c))
            &&& all_served(loads, layer, 0, chunk_qkv_op(c, rows))
            &&& all_served(loads, layer, 0, chunk_conv_ops(c, rows))
            &&& all_served(loads, layer, 0, chunk_gate_ops(c, rows))
            &&& all_served(loads, layer, 0, chunk_ssm_out_op(c, rows))
            &&& all_served(loads, layer, 0, post_norm_ops(c, rows))
        }),
{
    let loads = gdn_loads(c, layer);
    lemma_listed(loads);
    assert(loads[0].name == layer_tensor(layer, ".attn_norm.weight"@));
    assert(loads[1].name == layer_tensor(layer, ".attn_qkv.weight"@));
    assert(loads[2].name == layer_tensor(layer, ".attn_gate.weight"@));
    assert(loads[3].name == layer_tensor(layer, ".ssm_beta.weight"@));
    assert(loads[4].name == layer_tensor(layer, ".ssm_alpha.weight"@));
    assert(loads[5].name == layer_tensor(layer, ".ssm_conv1d.weight"@));
    assert(loads[6].name == layer_tensor(layer, ".ssm_dt.bias"@));
    assert(loads[7].name == layer_tensor(layer, ".ssm_a"@));
    assert(loads[8].name == layer_tensor(layer, ".ssm_norm.weight"@));
    assert(loads[9].name == layer_tensor(layer, ".ssm_out.weight"@));
    assert(loads[10].name == layer_tensor(layer, ".post_attention_norm.weight"@));
}

/// A dense feed-forward part's projections are loaded.
pub proof fn law_feed_forward_finds_its_tensors(c: ConfigModel, layer: u32, rows: u32)
    requires
        c.moe is None,
    ensures
        ({
            let loads = ffn_loads(c, layer);
            &&& all_served(loads, layer, 0, gate_up_ops(c))
            &&& all_served(loads, layer, 0, down_ops(c))
            &&& all_served(loads, layer, 0, chunk_gate_up_ops(c, rows))
            &&& all_served(loads, layer, 0, chunk_down_ops(c, rows))
        }),
{
    let loads = ffn_loads(c, layer);
    lemma_listed(loads);
    assert(loads[0].name == layer_tensor(layer, ".ffn_gate.weight"@));
    assert(loads[1].name == layer_tensor(layer, ".ffn_up.weight"@));
    assert(loads[2].name == layer_tensor(layer, ".ffn_down.weight"@));
}

/// A mixture's router, shared expert and experts are loaded.
pub proof fn law_experts_find_their_tensors(
    c: ConfigModel,
    m: MoeConfig,
    layer: u32,
    rows: u32,
    at: ExpertAt,
    choice: int,
    x: At,
)
    requires
        c.moe == Some(m),
    ensures
        ({
            let loads = ffn_loads(c, layer);
            let n = m.expert_count;
            &&& all_served(loads, layer, n, expert_ops(c, m, at, choice))
            &&& all_served(loads, layer, n, group_ops(c, m, at, rows))
            &&& all_served(loads, layer, n, moe_route_ops(c, m, x).skip(1))
            &&& all_served(loads, layer, n, chunk_route_ops(c, m, rows).skip(1))
        }),
{
    let loads = ffn_loads(c, layer);
    lemma_listed(loads);
    assert(loads[0].name == layer_tensor(layer, ".ffn_gate_inp.weight"@));
    assert(loads[1].name == layer_tensor(layer, ".ffn_gate_inp_shexp.weight"@));
    assert(loads[2].name == layer_tensor(layer, ".ffn_gate_shexp.weight"@));
    assert(loads[3].name == layer_tensor(layer, ".ffn_up_shexp.weight"@));
    assert(loads[4].name == layer_tensor(layer, ".ffn_down_shexp.weight"@));
    assert(loads[5].name == layer_tensor(layer, ".ffn_gate_exps.weight"@));
    assert(loads[6].name == layer_tensor(layer, ".ffn_up_exps.weight"@));
    assert(loads[7].name == layer_tensor(layer, ".ffn_down_exps.weight"@));
}

/// The final norm and the output projection are loaded. A model without an
/// output projection of its own has its embedding for one.
pub proof fn law_ends_find_their_tensors(c: ConfigModel, has_output: bool, p: PassParams)
    ensures
        ({
            let loads = model_loads(c, has_output);
            &&& forall|i: int|
                0 <= i < tail_norm_ops(c, p).len() ==> (#[trigger] tail_norm_ops(c, p)[i] matches
                    Op::Rmsnorm { weight, cols, .. } && weight == Buf::OutputNorm
                    && loads.contains(
                    (LoadModel {
                        name: "output_norm.weight"@,
                        role: TensorRole::Vector,
                        m: cols,
                        n: 1,
                    }),
                ))
            &&& forall|i: int|
                0 <= i < lm_head_ops(c).len() ==> (#[trigger] lm_head_ops(c)[i] matches
                    Op::Matvec { w, m, n, .. } && w == Linear::Output && loads.contains(
                    (LoadModel {
                        name: if has_output {
                            "output.weight"@
                        } else {
                            "token_embd.weight"@
                        },
                        role: TensorRole::Linear,
                        m,
                        n,
                    }),
                ))
            &&& loads.contains(
                (LoadModel {
                    name: "token_embd.weight"@,
                    role: TensorRole::MatrixF16,
                    m: c.vocab_size,
                    n: c.embedding_length,
                }),
            )
        }),
{
    let loads = model_loads(c, has_output);
    lemma_listed(loads);
    assert(loads[0].name == "token_embd.weight"@);
    assert(loads[1].name == "output_norm.weight"@);
    assert(loads[2].role == TensorRole::Linear);
}

} // verus!
