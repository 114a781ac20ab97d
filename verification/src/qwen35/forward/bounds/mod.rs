//! Every operation of a plan stays inside the buffers it works on: what is
//! allocated once serves every layer and every chunk.

pub mod cache;
pub mod chunk;
pub mod experts;
pub mod layer;
pub mod token;

use super::model::CHUNK_CAP;
use super::plan::{At, Buf, Op};
use super::scratch::{activations, moe_chunk_scratch, moe_scratch};
use crate::qwen35::cache::hybrid::AttnCacheModel;
use crate::qwen35::cache::mixed::MixedLens;
use crate::qwen35::cache::plane::{conv_elems, state_elems};
use crate::qwen35::config::{ConfigModel, GdnConfig, MoeConfig};
use vstd::prelude::*;

verus! {

/// The buffers that a layer of a pass works on.
pub struct Buffers {
    pub config: ConfigModel,
    /// Whether activations are those of a chunk.
    pub chunk: bool,
    pub max_seq: u32,
    /// The layer's key/value cache, where it has one.
    pub cache: Option<AttnCacheModel>,
}

/// The linear-attention dimensions fit together.
pub open spec fn dims_agree(g: GdnConfig) -> bool {
    &&& g.num_k_heads * g.head_k_dim == g.key_dim
    &&& g.num_v_heads * g.head_v_dim == g.value_dim
    &&& g.conv_dim == 2 * g.key_dim + g.value_dim
    &&& 1 <= g.conv_kernel
}

/// Elements of a buffer that a mixture of experts uses.
pub open spec fn moe_room(c: ConfigModel, m: MoeConfig, buf: Buf) -> Option<int> {
    let s = moe_scratch(c, m, 0);
    let t = moe_chunk_scratch(c, m);
    match buf {
        Buf::MoeXn => Some(s.xn as int),
        Buf::MoeRouterLogits => Some(s.router_logits as int),
        Buf::MoeTopkIdx => Some(s.topk_idx as int),
        Buf::MoeTopkWeight => Some(s.topk_weight as int),
        Buf::MoeSharedGateLogit => Some(s.shared_gate_logit as int),
        Buf::MoeFfnA => Some(s.ffn_a as int),
        Buf::MoeFfnB => Some(s.ffn_b as int),
        Buf::MoeExpertOut => Some(s.expert_out as int),
        Buf::MoeAccum => Some(s.accum as int),
        Buf::ChunkRouterLogits => Some(t.router_logits as int),
        Buf::ChunkTopkIdx => Some(t.topk_idx as int),
        Buf::ChunkTopkWeight => Some(t.topk_weight as int),
        Buf::ChunkSharedGateLogit => Some(t.shared_gate_logit as int),
        Buf::SharedA => Some(t.shared_a as int),
        Buf::SharedB => Some(t.shared_b as int),
        Buf::SharedOut => Some(t.shared_out as int),
        Buf::ChunkAccum => Some(t.accum as int),
        Buf::GroupRowIdx => Some(t.group_row_idx as int),
        Buf::GroupWeight => Some(t.group_weight as int),
        Buf::GroupX => Some(t.group_x as int),
        Buf::GroupGate => Some(t.group_gate as int),
        Buf::GroupUp => Some(t.group_up as int),
        Buf::GroupDown => Some(t.group_down as int),
        Buf::Router => Some(m.expert_count * c.embedding_length),
        Buf::SharedGate => Some(c.embedding_length as int),
        _ => None,
    }
}

/// Elements of a part of a mixed cache.
pub open spec fn mixed_room(l: MixedLens, buf: Buf) -> Option<int> {
    match buf {
        Buf::SinkK | Buf::SinkV => Some(l.sink as int),
        Buf::WindowK | Buf::WindowV => Some(l.window as int),
        Buf::BulkKCodes => Some(l.bulk_k_codes as int),
        Buf::BulkKScales => Some(l.bulk_k_scales as int),
        Buf::BulkVCodes => Some(l.bulk_v_codes as int),
        Buf::BulkVScales => Some(l.bulk_v_scales as int),
        _ => None,
    }
}

impl Buffers {
    /// Tokens the activations have room for.
    pub open spec fn rows(self) -> int {
        if self.chunk {
            CHUNK_CAP as int
        } else {
            1
        }
    }

    /// Elements of a buffer; none for one that is counted in bytes, or whose
    /// size the kernels choose.
    pub open spec fn room(self, buf: Buf) -> Option<int> {
        let c = self.config;
        let s = activations(c, self.rows());
        match buf {
            Buf::TokenIds => Some(s.token_ids as int),
            Buf::X => Some(s.x as int),
            Buf::Xn => Some(s.xn as int),
            Buf::Logits => Some(s.logits as int),
            Buf::GdnQkv => Some(s.gdn_qkv as int),
            Buf::GdnConvOut => Some(s.gdn_conv_out as int),
            Buf::GdnZ => Some(s.gdn_z as int),
            Buf::GdnARaw => Some(s.gdn_a_raw as int),
            Buf::GdnBRaw => Some(s.gdn_b_raw as int),
            Buf::GdnBeta => Some(s.gdn_beta as int),
            Buf::GdnG => Some(s.gdn_g as int),
            Buf::GdnY => Some(s.gdn_y as int),
            Buf::GdnOut => Some(s.gdn_out as int),
            Buf::L2AlphaK | Buf::L2AlphaQ => Some(c.gdn.head_k_dim as int),
            Buf::AttnQRaw => Some(s.attn_q_raw as int),
            Buf::AttnQ => Some(s.attn_q as int),
            Buf::AttnGate => Some(s.attn_gate as int),
            Buf::AttnK => Some(s.attn_k as int),
            Buf::AttnV => Some(s.attn_v as int),
            Buf::AttnConcat => Some(s.attn_concat as int),
            Buf::AttnOut => Some(s.attn_out as int),
            Buf::FfnGate => Some(s.ffn_gate as int),
            Buf::FfnUp => Some(s.ffn_up as int),
            Buf::FfnOut => Some(s.ffn_out as int),
            Buf::ConvState => Some(conv_elems(c.gdn)),
            Buf::RecurState => Some(state_elems(c.gdn)),
            Buf::AttnNorm | Buf::PostAttentionNorm | Buf::OutputNorm => Some(
                c.embedding_length as int,
            ),
            Buf::AttnQNorm | Buf::AttnKNorm => Some(c.head_dim as int),
            Buf::SsmConv1d => Some(c.gdn.conv_dim * c.gdn.conv_kernel),
            Buf::SsmA | Buf::SsmDtBias => Some(c.gdn.num_v_heads as int),
            Buf::SsmNorm => Some(c.gdn.head_v_dim as int),
            Buf::PlaneK | Buf::PlaneV => match self.cache {
                Some(AttnCacheModel::Dense(_)) => Some(
                    c.head_count_kv * self.max_seq * c.head_dim,
                ),
                _ => None,
            },
            _ => match (self.cache, mixed_room_of(self.cache, buf)) {
                (Some(AttnCacheModel::Mixed(_)), Some(n)) => Some(n),
                _ => match c.moe {
                    Some(m) => moe_room(c, m, buf),
                    None => None,
                },
            },
        }
    }

    /// `len` elements from `from` on are inside a buffer.
    pub open spec fn holds(self, buf: Buf, from: int, len: int) -> bool {
        self.room(buf) matches Some(n) ==> 0 <= from && 0 <= len && from + len <= n
    }

    /// `len` elements from a place on are inside its buffer.
    pub open spec fn at(self, a: At, len: int) -> bool {
        self.holds(a.buf, a.offset as int, len)
    }

    /// An operation stays inside the buffers.
    pub open spec fn allows(self, op: Op) -> bool {
        match op {
            Op::UploadTokens { tokens } => self.holds(Buf::TokenIds, 0, tokens as int),
            Op::ReadLogits { vocab } => self.holds(Buf::Logits, 0, vocab as int),
            Op::Embedding { tokens, hidden } => {
                &&& self.holds(Buf::TokenIds, 0, tokens as int)
                &&& self.holds(Buf::X, 0, tokens * hidden)
            },
            Op::Rmsnorm { x, weight, out, rows, cols, .. } => {
                &&& self.at(x, rows * cols)
                &&& self.holds(weight, 0, cols as int)
                &&& self.at(out, rows * cols)
            },
            Op::Matvec { x, out, m, n, .. } => self.at(x, n as int) && self.at(out, m as int),
            Op::Matmul { x, out, rows, m, n, .. } => self.at(x, rows * n) && self.at(
                out,
                rows * m,
            ),
            Op::GemvF32 { w, x, out, m, n } => {
                &&& self.holds(w, 0, m * n)
                &&& self.at(x, n as int)
                &&& self.at(out, m as int)
            },
            Op::GemmF32 { w, x, out, rows, m, n } => {
                &&& self.holds(w, 0, m * n)
                &&& self.at(x, rows * n)
                &&& self.at(out, rows * m)
            },
            Op::GemvQuant { x, out, m, n, .. } => self.at(x, n as int) && self.at(out, m as int),
            Op::GemmQuant { x, out, rows, m, n, .. } => self.at(x, rows * n) && self.at(
                out,
                rows * m,
            ),
            Op::SiluMul { gate, up, out, n } => {
                &&& self.at(gate, n as int)
                &&& self.at(up, n as int)
                &&& self.at(out, n as int)
            },
            Op::SigmoidMul { x, gate, out, n } => {
                &&& self.at(x, n as int)
                &&& self.at(gate, n as int)
                &&& self.at(out, n as int)
            },
            Op::AddInplace { x, y, n } => self.at(x, n as int) && self.at(y, n as int),
            Op::CopyDevice { dst, src, len } => self.at(dst, len as int) && self.at(
                src,
                len as int,
            ),
            Op::CastF16 { src, dst, len } => self.at(dst, len as int) && self.at(src, len as int),
            Op::ExtractHeads { src, dst, tokens, heads, head_dim, src_stride, src_offset } => {
                &&& src_offset + head_dim <= src_stride
                &&& self.at(src, tokens * (heads * src_stride))
                &&& self.at(dst, tokens * (heads * head_dim))
            },
            Op::RopePartial { x, tokens, heads, head_dim, .. } => self.at(
                x,
                tokens * (heads * head_dim),
            ),
            Op::ScatterKv {
                k_src,
                v_src,
                k_dst,
                v_dst,
                n_kv_heads,
                head_dim,
                max_seq,
                rows,
                pos_base,
                ..
            } => {
                let moved = rows * (n_kv_heads * head_dim);
                let reach = reach(n_kv_heads as int, max_seq as int, rows as int, head_dim as int);
                &&& self.at(k_src, moved)
                &&& self.at(v_src, moved)
                &&& self.holds(k_dst, pos_base * head_dim, reach)
                &&& self.holds(v_dst, pos_base * head_dim, reach)
            },
            Op::AttnDecode { n_heads, n_kv_heads, head_dim, max_seq, cur_len, .. } => {
                &&& self.attends(1, n_heads, head_dim)
                &&& self.reads_planes(n_kv_heads, max_seq, cur_len as int, head_dim)
            },
            Op::AttnDecodeMixed { n_heads, head_dim, .. } => self.attends(1, n_heads, head_dim),
            Op::AttnPrefill {
                n_heads,
                n_kv_heads,
                head_dim,
                max_seq,
                chunk_len,
                pos_base,
                ..
            } => {
                &&& self.attends(chunk_len, n_heads, head_dim)
                &&& self.reads_planes(n_kv_heads, max_seq, pos_base + chunk_len, head_dim)
            },
            Op::AttnPrefillMixed { n_heads, head_dim, chunk_len, .. } => self.attends(
                chunk_len,
                n_heads,
                head_dim,
            ),
            Op::RotSim { n_kv_heads, window_len, head_dim, .. } => {
                &&& self.holds(Buf::WindowK, 0, n_kv_heads * window_len * head_dim)
                &&& self.holds(Buf::WindowV, 0, n_kv_heads * window_len * head_dim)
            },
            Op::QuantizeEvictK {
                n_kv_heads,
                window_len,
                head_dim,
                bulk_cap,
                num_blocks_total,
                block,
            } => {
                let (n, w, hd) = (n_kv_heads as int, window_len as int, head_dim as int);
                &&& self.holds(Buf::WindowK, 0, n * w * hd)
                &&& self.holds(
                    Buf::BulkKCodes,
                    block * w * hd,
                    reach(n, bulk_cap as int, w, hd),
                )
                &&& self.holds(
                    Buf::BulkKScales,
                    block * hd,
                    reach(n, num_blocks_total as int, 1, hd),
                )
            },
            Op::QuantizeEvictV { v_bits, n_kv_heads, window_len, head_dim, bulk_cap, block } => {
                let (n, w, hd) = (n_kv_heads as int, window_len as int, head_dim as int);
                let row = if v_bits == 8 {
                    hd
                } else {
                    hd / 2
                };
                &&& self.holds(Buf::WindowV, 0, n * w * hd)
                &&& self.holds(
                    Buf::BulkVCodes,
                    block * w * row,
                    reach(n, bulk_cap as int, w, row),
                )
                &&& self.holds(Buf::BulkVScales, block * w * 1, reach(n, bulk_cap as int, w, 1))
            },
            Op::GdnConv1dDecode { channels, kernel_size } => {
                &&& self.holds(Buf::GdnQkv, 0, channels as int)
                &&& self.holds(Buf::GdnConvOut, 0, channels as int)
                &&& self.holds(Buf::ConvState, 0, channels * (kernel_size - 1))
                &&& self.holds(Buf::SsmConv1d, 0, channels * kernel_size)
            },
            Op::GdnConv1dChunk { channels, kernel_size, chunk_len } => {
                &&& self.holds(Buf::GdnQkv, 0, chunk_len * channels)
                &&& self.holds(Buf::GdnConvOut, 0, chunk_len * channels)
                &&& self.holds(Buf::ConvState, 0, channels * (kernel_size - 1))
                &&& self.holds(Buf::SsmConv1d, 0, channels * kernel_size)
            },
            Op::GdnConv1dChunkStateUpdate { channels, kernel_size, chunk_len } => {
                &&& self.holds(Buf::GdnQkv, 0, chunk_len * channels)
                &&& self.holds(Buf::ConvState, 0, channels * (kernel_size - 1))
            },
            Op::GdnGate { n } => self.gates(n as int, n as int),
            Op::GdnGateChunk { heads, chunk_len } => self.gates(chunk_len * heads, heads as int),
            Op::GdnRecurrenceDecode {
                q,
                k,
                v,
                num_heads,
                num_k_heads,
                head_k_dim,
                head_v_dim,
            } => {
                &&& self.at(q, num_k_heads * head_k_dim)
                &&& self.at(k, num_k_heads * head_k_dim)
                &&& self.at(v, num_heads * head_v_dim)
                &&& self.holds(Buf::GdnBeta, 0, num_heads as int)
                &&& self.holds(Buf::GdnG, 0, num_heads as int)
                &&& self.holds(Buf::RecurState, 0, num_heads * head_k_dim * head_v_dim)
                &&& self.holds(Buf::GdnY, 0, num_heads * head_v_dim)
            },
            Op::CwPrepPoint { conv_out, beta, num_v_heads, conv_dim, tile_len, .. } => {
                &&& self.at(conv_out, tile_len * conv_dim)
                &&& self.at(beta, tile_len * num_v_heads)
            },
            Op::CwPrepCumsum { g, num_v_heads, tile_len } => self.at(g, tile_len * num_v_heads),
            Op::CwUvVnew { conv_out, beta, num_v_heads, conv_dim, tile_len, .. } => {
                &&& self.at(conv_out, tile_len * conv_dim)
                &&& self.at(beta, tile_len * num_v_heads)
            },
            Op::CwOutput { y, num_v_heads, head_v_dim, head_k_dim, tile_len, .. } => {
                &&& self.at(y, tile_len * (num_v_heads * head_v_dim))
                &&& self.holds(Buf::RecurState, 0, num_v_heads * head_k_dim * head_v_dim)
            },
            Op::CwStateUpdate { num_v_heads, head_v_dim, head_k_dim, .. } => self.holds(
                Buf::RecurState,
                0,
                num_v_heads * head_k_dim * head_v_dim,
            ),
            Op::RouteTopk { logits, out_idx, out_weight, rows, expert_count, top_k } => {
                &&& self.holds(logits, 0, rows * expert_count)
                &&& self.holds(out_idx, 0, rows * top_k)
                &&& self.holds(out_weight, 0, rows * top_k)
            },
            Op::SharedGateWrite { n } => {
                &&& self.holds(Buf::MoeExpertOut, 0, n as int)
                &&& self.holds(Buf::MoeSharedGateLogit, 0, 1)
                &&& self.holds(Buf::MoeAccum, 0, n as int)
            },
            Op::SharedGateWriteChunk { rows, cols } => {
                &&& self.holds(Buf::SharedOut, 0, rows * cols)
                &&& self.holds(Buf::ChunkSharedGateLogit, 0, rows as int)
                &&& self.holds(Buf::ChunkAccum, 0, rows * cols)
            },
            Op::WeightedAccum { weight, n } => {
                &&& self.at(weight, 1)
                &&& self.holds(Buf::MoeExpertOut, 0, n as int)
                &&& self.holds(Buf::MoeAccum, 0, n as int)
            },
            Op::GatherRows { rows, cols } => {
                &&& self.holds(Buf::GroupRowIdx, 0, rows as int)
                &&& self.holds(Buf::GroupX, 0, rows * cols)
            },
            Op::ScatterWeightedAccum { rows, cols } => {
                &&& self.holds(Buf::GroupRowIdx, 0, rows as int)
                &&& self.holds(Buf::GroupWeight, 0, rows as int)
                &&& self.holds(Buf::GroupDown, 0, rows * cols)
            },
            Op::UploadGroup { rows, .. } => {
                &&& self.holds(Buf::GroupRowIdx, 0, rows as int)
                &&& self.holds(Buf::GroupWeight, 0, rows as int)
            },
            Op::CwUtBuild { .. } | Op::CwTinv { .. } | Op::UploadExpert { .. } | Op::StartUploadExpert {
                ..
            } | Op::MarkComputeDone | Op::WaitUpload => true,
        }
    }

    /// `rows` queries and their results are inside their buffers.
    pub open spec fn attends(self, rows: u32, n_heads: u32, head_dim: u32) -> bool {
        &&& self.holds(Buf::AttnQ, 0, rows * (n_heads * head_dim))
        &&& self.holds(Buf::AttnConcat, 0, rows * (n_heads * head_dim))
    }

    /// The first `len` positions of every head are inside the planes.
    pub open spec fn reads_planes(
        self,
        n_kv_heads: u32,
        max_seq: u32,
        len: int,
        head_dim: u32,
    ) -> bool {
        let reach = reach(n_kv_heads as int, max_seq as int, len, head_dim as int);
        self.holds(Buf::PlaneK, 0, reach) && self.holds(Buf::PlaneV, 0, reach)
    }

    /// `n` gates, and the weights of each of `heads` heads, are inside their
    /// buffers.
    pub open spec fn gates(self, n: int, heads: int) -> bool {
        &&& self.holds(Buf::GdnARaw, 0, n)
        &&& self.holds(Buf::GdnBRaw, 0, n)
        &&& self.holds(Buf::GdnBeta, 0, n)
        &&& self.holds(Buf::GdnG, 0, n)
        &&& self.holds(Buf::SsmA, 0, heads)
        &&& self.holds(Buf::SsmDtBias, 0, heads)
    }

    /// Every one of the operations stays inside the buffers.
    pub open spec fn allow_all(self, ops: Seq<Op>) -> bool {
        forall|i: int| 0 <= i < ops.len() ==> self.allows(#[trigger] ops[i])
    }
}

/// Elements of a part of a mixed cache, where there is one.
pub open spec fn mixed_room_of(cache: Option<AttnCacheModel>, buf: Buf) -> Option<int> {
    match cache {
        Some(AttnCacheModel::Mixed(m)) => mixed_room(m.lens(m.num_blocks_total), buf),
        _ => None,
    }
}

/// Elements from the first of `slots` slots of the first head to the last of
/// them of the last head, in planes of `span` slots a head.
pub open spec fn reach(heads: int, span: int, slots: int, width: int) -> int {
    if heads <= 0 {
        0
    } else {
        (heads - 1) * span * width + slots * width
    }
}

/// Slots of every head are inside a plane with that many slots a head.
pub proof fn lemma_reach(heads: int, span: int, first: int, slots: int, width: int)
    requires
        0 <= heads,
        0 <= first,
        0 <= slots,
        first + slots <= span,
        0 <= width,
    ensures
        0 <= first * width,
        0 <= reach(heads, span, slots, width),
        heads > 0 ==> first * width + reach(heads, span, slots, width) <= heads * span * width,
        heads == 0 ==> reach(heads, span, slots, width) == 0,
{
    assert(0 <= first * width && 0 <= slots * width) by (nonlinear_arith)
        requires
            0 <= first,
            0 <= slots,
            0 <= width,
    ;
    assert(first * width + slots * width <= span * width) by (nonlinear_arith)
        requires
            first + slots <= span,
            0 <= width,
    ;
    if heads > 0 {
        assert(0 <= (heads - 1) * span) by (nonlinear_arith)
            requires
                1 <= heads,
                0 <= span,
        ;
        assert(0 <= (heads - 1) * span * width) by (nonlinear_arith)
            requires
                0 <= (heads - 1) * span,
                0 <= width,
        ;
        assert((heads - 1) * span * width + span * width == heads * span * width)
            by (nonlinear_arith);
    }
}

/// Two runs of operations stay inside the buffers if each does.
pub proof fn lemma_allow_concat(b: Buffers, x: Seq<Op>, y: Seq<Op>)
    requires
        b.allow_all(x),
        b.allow_all(y),
    ensures
        b.allow_all(x + y),
{
    assert forall|i: int| 0 <= i < (x + y).len() implies b.allows(#[trigger] (x + y)[i]) by {
        if i < x.len() {
            assert((x + y)[i] == x[i]);
        } else {
            assert((x + y)[i] == y[i - x.len()]);
        }
    }
}

/// One more operation that stays inside the buffers.
pub proof fn lemma_allow_push(b: Buffers, x: Seq<Op>, op: Op)
    requires
        b.allow_all(x),
        b.allows(op),
    ensures
        b.allow_all(x.push(op)),
{
    assert forall|i: int| 0 <= i < x.push(op).len() implies b.allows(#[trigger] x.push(op)[i]) by {
        if i < x.len() {
            assert(x.push(op)[i] == x[i]);
        }
    }
}

} // verus!
