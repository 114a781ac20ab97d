//! Sizes of the activation buffers: one set for a single token, one for a
//! chunk, and two more for a mixture of experts. They are allocated once and
//! used by every layer.

use super::dims::{dims_fit, kv_dim, lemma_widths, q_dim};
use super::model::CHUNK_CAP;
use crate::math::{greatest, max_u32};
use crate::qwen35::config::{ConfigModel, MoeConfig, Qwen35Config};
use crate::qwen35::moe::tensor::{max_expert_bytes, stride_maxima, MoeFfnWeights};
use vstd::prelude::*;

verus! {

/// Element counts of the activation buffers of `rows` tokens.
#[derive(Debug, Clone, Copy, PartialEq, Eq, Structural)]
pub struct Activations {
    pub x: usize,
    pub xn: usize,
    pub token_ids: usize,
    /// One row, whatever the number of tokens: only the last token's logits
    /// are ever needed.
    pub logits: usize,
    pub gdn_qkv: usize,
    pub gdn_conv_out: usize,
    pub gdn_z: usize,
    pub gdn_a_raw: usize,
    pub gdn_b_raw: usize,
    pub gdn_beta: usize,
    pub gdn_g: usize,
    pub gdn_y: usize,
    pub gdn_out: usize,
    pub attn_q_raw: usize,
    pub attn_q: usize,
    pub attn_gate: usize,
    pub attn_k: usize,
    pub attn_v: usize,
    pub attn_concat: usize,
    pub attn_out: usize,
    pub ffn_gate: usize,
    pub ffn_up: usize,
    pub ffn_out: usize,
}

/// The counts that `rows` tokens need.
pub open spec fn activations(c: ConfigModel, rows: int) -> Activations {
    let hidden = (rows * c.embedding_length) as usize;
    let conv = (rows * c.gdn.conv_dim) as usize;
    let value = (rows * c.gdn.value_dim) as usize;
    let heads = (rows * c.gdn.num_v_heads) as usize;
    let q = (rows * q_dim(c)) as usize;
    let kv = (rows * kv_dim(c)) as usize;
    let ffn = (rows * c.feed_forward_length) as usize;
    Activations {
        x: hidden,
        xn: hidden,
        token_ids: rows as usize,
        logits: c.vocab_size as usize,
        gdn_qkv: conv,
        gdn_conv_out: conv,
        gdn_z: value,
        gdn_a_raw: heads,
        gdn_b_raw: heads,
        gdn_beta: heads,
        gdn_g: heads,
        gdn_y: value,
        gdn_out: hidden,
        attn_q_raw: (rows * (2 * q_dim(c))) as usize,
        attn_q: q,
        attn_gate: q,
        attn_k: kv,
        attn_v: kv,
        attn_concat: q,
        attn_out: hidden,
        ffn_gate: ffn,
        ffn_up: ffn,
        ffn_out: hidden,
    }
}

fn new_activations(config: &Qwen35Config, rows: u32) -> (r: Activations)
    requires
        dims_fit(config@, rows as int),
    ensures
        r == activations(config@, rows as int),
{
    proof {
        lemma_widths(config@, rows as int);
        assert(rows * q_dim(config@) <= rows * (2 * q_dim(config@))) by (nonlinear_arith)
            requires
                0 <= q_dim(config@),
                0 <= rows,
        ;
    }
    let hidden: usize = (rows * config.embedding_length) as usize;
    let conv: usize = (rows * config.gdn.conv_dim) as usize;
    let value: usize = (rows * config.gdn.value_dim) as usize;
    let heads: usize = (rows * config.gdn.num_v_heads) as usize;
    let q_width: u32 = config.q_dim();
    let kv_width: u32 = config.kv_dim();
    let q: usize = (rows * q_width) as usize;
    let kv: usize = (rows * kv_width) as usize;
    let ffn: usize = (rows * config.feed_forward_length) as usize;
    Activations {
        x: hidden,
        xn: hidden,
        token_ids: rows as usize,
        logits: config.vocab_size as usize,
        gdn_qkv: conv,
        gdn_conv_out: conv,
        gdn_z: value,
        gdn_a_raw: heads,
        gdn_b_raw: heads,
        gdn_beta: heads,
        gdn_g: heads,
        gdn_y: value,
        gdn_out: hidden,
        attn_q_raw: (rows * (2 * q_width)) as usize,
        attn_q: q,
        attn_gate: q,
        attn_k: kv,
        attn_v: kv,
        attn_concat: q,
        attn_out: hidden,
        ffn_gate: ffn,
        ffn_up: ffn,
        ffn_out: hidden,
    }
}

/// Buffers of the single-token pass.
#[derive(Debug, Clone, Copy, PartialEq, Eq, Structural)]
pub struct Scratch {
    pub activations: Activations,
    /// The constant vectors that turn a norm into a plain or a scaled L2 norm
    /// over a key head.
    pub l2_alpha_k: usize,
    pub l2_alpha_q: usize,
    /// Scores of every head over every position.
    pub attn_scores: usize,
    pub attn_valid_len: usize,
}

impl Scratch {
    /// Buffers for sequences of up to `max_seq` positions.
    pub fn new(config: &Qwen35Config, max_seq: u32) -> (r: Self)
        requires
            dims_fit(config@, 1),
            config@.head_count * max_seq <= usize::MAX,
        ensures
            r.activations == activations(config@, 1),
            r.l2_alpha_k == config@.gdn.head_k_dim,
            r.l2_alpha_q == config@.gdn.head_k_dim,
            r.attn_scores == config@.head_count * max_seq,
            r.attn_valid_len == config@.head_count,
    {
        Scratch {
            activations: new_activations(config, 1),
            l2_alpha_k: config.gdn.head_k_dim as usize,
            l2_alpha_q: config.gdn.head_k_dim as usize,
            attn_scores: config.head_count as usize * max_seq as usize,
            attn_valid_len: config.head_count as usize,
        }
    }
}

/// Buffers of a chunk's pass.
#[derive(Debug, Clone, Copy, PartialEq, Eq, Structural)]
pub struct ChunkScratch {
    pub activations: Activations,
}

impl ChunkScratch {
    /// Buffers for chunks of up to [`CHUNK_CAP`] tokens.
    pub fn new(config: &Qwen35Config) -> (r: Self)
        requires
            dims_fit(config@, CHUNK_CAP as int),
        ensures
            r.activations == activations(config@, CHUNK_CAP as int),
    {
        ChunkScratch { activations: new_activations(config, CHUNK_CAP) }
    }
}

/// Buffers of one token's mixture of experts. Stages are in bytes.
#[derive(Debug, Clone, Copy, PartialEq, Eq, Structural)]
pub struct MoeScratch {
    pub xn: usize,
    pub router_logits: usize,
    pub topk_idx: usize,
    pub topk_weight: usize,
    pub shared_gate_logit: usize,
    /// Wide enough for the shared expert and for a routed one.
    pub ffn_a: usize,
    pub ffn_b: usize,
    pub expert_out: usize,
    pub accum: usize,
    /// The routed experts' part of the sum, for diagnostic runs.
    pub routed_sum: usize,
    pub stage_gate: usize,
    pub stage_up: usize,
    pub stage_down: usize,
}

/// The counts that one token's mixture of experts needs, with stages of a
/// given size.
pub open spec fn moe_scratch(c: ConfigModel, m: MoeConfig, stage: usize) -> MoeScratch {
    let hidden = c.embedding_length as usize;
    let ffn = greatest(m.expert_ff_len as int, m.shared_ff_len as int) as usize;
    MoeScratch {
        xn: hidden,
        router_logits: m.expert_count as usize,
        topk_idx: m.expert_used_count as usize,
        topk_weight: m.expert_used_count as usize,
        shared_gate_logit: 1,
        ffn_a: ffn,
        ffn_b: ffn,
        expert_out: hidden,
        accum: hidden,
        routed_sum: hidden,
        stage_gate: stage,
        stage_up: stage,
        stage_down: stage,
    }
}

/// The largest of three sizes.
pub open spec fn largest(s: (nat, nat, nat)) -> int {
    greatest(greatest(s.0 as int, s.1 as int), s.2 as int)
}

impl MoeScratch {
    /// Buffers with stages for the model's largest expert.
    pub fn new(
        cfg: &Qwen35Config,
        moe_cfg: &MoeConfig,
        layers: &[Option<MoeFfnWeights>],
    ) -> (r: Self)
        ensures
            r == moe_scratch(cfg@, *moe_cfg, largest(stride_maxima(layers@)) as usize),
    {
        let hidden: usize = cfg.embedding_length as usize;
        let ffn: usize = max_u32(moe_cfg.expert_ff_len, moe_cfg.shared_ff_len) as usize;
        let stage: usize = max_expert_bytes(layers);
        MoeScratch {
            xn: hidden,
            router_logits: moe_cfg.expert_count as usize,
            topk_idx: moe_cfg.expert_used_count as usize,
            topk_weight: moe_cfg.expert_used_count as usize,
            shared_gate_logit: 1,
            ffn_a: ffn,
            ffn_b: ffn,
            expert_out: hidden,
            accum: hidden,
            routed_sum: hidden,
            stage_gate: stage,
            stage_up: stage,
            stage_down: stage,
        }
    }
}

/// Buffers of a chunk's mixture of experts. Groups have room for a chunk in
/// which one expert claims every row.
#[derive(Debug, Clone, Copy, PartialEq, Eq, Structural)]
pub struct MoeChunkScratch {
    pub router_logits: usize,
    pub topk_idx: usize,
    pub topk_weight: usize,
    pub shared_gate_logit: usize,
    pub shared_a: usize,
    pub shared_b: usize,
    pub shared_out: usize,
    pub accum: usize,
    pub group_row_idx: usize,
    pub group_weight: usize,
    pub group_x: usize,
    pub group_gate: usize,
    pub group_up: usize,
    pub group_down: usize,
}

/// The counts that a chunk's mixture of experts needs.
pub open spec fn moe_chunk_scratch(c: ConfigModel, m: MoeConfig) -> MoeChunkScratch {
    let cap = CHUNK_CAP as usize;
    let hidden = (CHUNK_CAP * c.embedding_length) as usize;
    let top_k = (CHUNK_CAP * m.expert_used_count) as usize;
    let shared = (CHUNK_CAP * m.shared_ff_len) as usize;
    let expert = (CHUNK_CAP * m.expert_ff_len) as usize;
    MoeChunkScratch {
        router_logits: (CHUNK_CAP * m.expert_count) as usize,
        topk_idx: top_k,
        topk_weight: top_k,
        shared_gate_logit: cap,
        shared_a: shared,
        shared_b: shared,
        shared_out: hidden,
        accum: hidden,
        group_row_idx: cap,
        group_weight: cap,
        group_x: hidden,
        group_gate: expert,
        group_up: expert,
        group_down: hidden,
    }
}

impl MoeChunkScratch {
    /// Buffers for chunks of up to [`CHUNK_CAP`] tokens.
    pub fn new(cfg: &Qwen35Config, moe_cfg: &MoeConfig) -> (r: Self)
        requires
            dims_fit(cfg@, CHUNK_CAP as int),
            super::dims::moe_fits(*moe_cfg, CHUNK_CAP as int),
        ensures
            r == moe_chunk_scratch(cfg@, *moe_cfg),
    {
        let cap: usize = CHUNK_CAP as usize;
        let hidden: usize = (CHUNK_CAP * cfg.embedding_length) as usize;
        let top_k: usize = (CHUNK_CAP * moe_cfg.expert_used_count) as usize;
        let shared: usize = (CHUNK_CAP * moe_cfg.shared_ff_len) as usize;
        let expert: usize = (CHUNK_CAP * moe_cfg.expert_ff_len) as usize;
        MoeChunkScratch {
            router_logits: (CHUNK_CAP * moe_cfg.expert_count) as usize,
            topk_idx: top_k,
            topk_weight: top_k,
            shared_gate_logit: cap,
            shared_a: shared,
            shared_b: shared,
            shared_out: hidden,
            accum: hidden,
            group_row_idx: cap,
            group_weight: cap,
            group_x: hidden,
            group_gate: expert,
            group_up: expert,
            group_down: hidden,
        }
    }
}

} // verus!
