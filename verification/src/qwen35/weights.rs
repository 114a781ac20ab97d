//! What a model's weights are: which tensors every layer is made of, by name
//! and shape, and the little about them that the forward pass depends on.

use super::config::{ConfigModel, LayerKind, MoeConfig, Qwen35Config};
use super::moe::tensor::MoeFfnWeights;
use crate::error::ConfigError;
use crate::text::{decimal, lemma_decimal_injective, push_decimal};
use vstd::prelude::*;

verus! {

/// Shape of a projection: `m` rows of `n`.
#[derive(Debug, Clone, Copy, PartialEq, Eq, Structural)]
pub struct LinearWeight {
    pub m: u32,
    pub n: u32,
}

/// A gated feed-forward part.
#[derive(Debug, Clone, Copy, PartialEq, Eq, Structural)]
pub struct FfnWeights {
    pub gate: LinearWeight,
    pub up: LinearWeight,
    pub down: LinearWeight,
}

/// A layer's feed-forward part.
#[allow(inconsistent_fields)]
#[derive(Debug, Clone, Copy, PartialEq, Eq, Structural)]
pub enum Ffn {
    Dense(FfnWeights),
    Moe(MoeFfnWeights),
}

/// A linear-attention layer's weights.
#[derive(Debug, Clone, Copy, PartialEq, Eq, Structural)]
pub struct GdnLayerWeights {
    pub ffn: Ffn,
}

/// A full-attention layer's weights.
#[derive(Debug, Clone, Copy, PartialEq, Eq, Structural)]
pub struct AttnLayerWeights {
    /// Each head's query rows are followed by as many gate rows.
    pub has_output_gate: bool,
    pub ffn: Ffn,
}

/// A layer's weights.
#[allow(inconsistent_fields)]
#[derive(Debug, Clone, Copy, PartialEq, Eq, Structural)]
pub enum LayerWeights {
    Gdn(GdnLayerWeights),
    Attention(AttnLayerWeights),
}

impl LayerWeights {
    /// Whether the weights are of a layer of this kind.
    pub open spec fn is_kind(self, kind: LayerKind) -> bool {
        match (self, kind) {
            (LayerWeights::Gdn(_), LayerKind::LinearAttention) => true,
            (LayerWeights::Attention(_), LayerKind::FullAttention) => true,
            _ => false,
        }
    }

    /// The layer's feed-forward part.
    pub open spec fn spec_ffn(self) -> Ffn {
        match self {
            LayerWeights::Gdn(w) => w.ffn,
            LayerWeights::Attention(w) => w.ffn,
        }
    }

    /// The layer's feed-forward part.
    pub fn ffn(&self) -> (r: Ffn)
        ensures
            r == self.spec_ffn(),
    {
        match self {
            LayerWeights::Gdn(w) => w.ffn,
            LayerWeights::Attention(w) => w.ffn,
        }
    }
}

/// How a tensor is stored once loaded.
#[derive(Debug, Clone, Copy, PartialEq, Eq, Structural)]
pub enum TensorRole {
    /// `m` single-precision values.
    Vector,
    /// `m` rows of `n` single-precision values.
    MatrixF32,
    /// `m` rows of `n` half-precision values.
    MatrixF16,
    /// A projection, in whatever format the checkpoint has it.
    Linear,
    /// `m` rows of `n` for each expert, never loaded as a whole.
    Experts { count: u32 },
}

/// A tensor to load.
#[derive(Debug)]
pub struct TensorLoad {
    pub name: String,
    pub role: TensorRole,
    pub m: u32,
    pub n: u32,
}

/// What a [`TensorLoad`] says.
#[verifier::ext_equal]
pub struct LoadModel {
    pub name: Seq<char>,
    pub role: TensorRole,
    pub m: u32,
    pub n: u32,
}

impl View for TensorLoad {
    type V = LoadModel;

    open spec fn view(&self) -> LoadModel {
        LoadModel { name: self.name@, role: self.role, m: self.m, n: self.n }
    }
}

/// What a list of [`TensorLoad`]s says.
pub open spec fn loads_view(v: Seq<TensorLoad>) -> Seq<LoadModel> {
    v.map_values(|t: TensorLoad| t@)
}

/// The name of a layer's tensor.
pub open spec fn layer_tensor(layer: u32, suffix: Seq<char>) -> Seq<char> {
    "blk."@ + decimal(layer as nat) + suffix
}

/// Tensors of different layers have different names.
pub proof fn law_tensor_names_tell_layers_apart(a: u32, b: u32, suffix: Seq<char>)
    requires
        layer_tensor(a, suffix) == layer_tensor(b, suffix),
    ensures
        a == b,
{
    let x = decimal(a as nat);
    let y = decimal(b as nat);
    let na = layer_tensor(a, suffix);
    let nb = layer_tensor(b, suffix);
    assert(na.len() == "blk."@.len() + x.len() + suffix.len());
    assert(nb.len() == "blk."@.len() + y.len() + suffix.len());
    assert forall|i: int| 0 <= i < x.len() implies x[i] == y[i] by {
        assert(na["blk."@.len() + i] == x[i]);
        assert(nb["blk."@.len() + i] == y[i]);
    }
    assert(x =~= y);
    lemma_decimal_injective(a as nat, b as nat);
}

/// A vector.
pub open spec fn vector(name: Seq<char>, len: u32) -> LoadModel {
    LoadModel { name, role: TensorRole::Vector, m: len, n: 1 }
}

/// A projection.
pub open spec fn linear(name: Seq<char>, m: int, n: int) -> LoadModel {
    LoadModel { name, role: TensorRole::Linear, m: m as u32, n: n as u32 }
}

/// The tensors of a dense feed-forward part.
pub open spec fn dense_ffn_loads(layer: u32, hidden: u32, ffn: u32) -> Seq<LoadModel> {
    seq![
        linear(layer_tensor(layer, ".ffn_gate.weight"@), ffn as int, hidden as int),
        linear(layer_tensor(layer, ".ffn_up.weight"@), ffn as int, hidden as int),
        linear(layer_tensor(layer, ".ffn_down.weight"@), hidden as int, ffn as int),
    ]
}

/// The tensors of a mixture-of-experts feed-forward part.
pub open spec fn moe_ffn_loads(layer: u32, hidden: u32, m: MoeConfig) -> Seq<LoadModel> {
    let experts = TensorRole::Experts { count: m.expert_count };
    seq![
        LoadModel {
            name: layer_tensor(layer, ".ffn_gate_inp.weight"@),
            role: TensorRole::MatrixF32,
            m: m.expert_count,
            n: hidden,
        },
        vector(layer_tensor(layer, ".ffn_gate_inp_shexp.weight"@), hidden),
        linear(
            layer_tensor(layer, ".ffn_gate_shexp.weight"@),
            m.shared_ff_len as int,
            hidden as int,
        ),
        linear(
            layer_tensor(layer, ".ffn_up_shexp.weight"@),
            m.shared_ff_len as int,
            hidden as int,
        ),
        linear(
            layer_tensor(layer, ".ffn_down_shexp.weight"@),
            hidden as int,
            m.shared_ff_len as int,
        ),
        LoadModel {
            name: layer_tensor(layer, ".ffn_gate_exps.weight"@),
            role: experts,
            m: m.expert_ff_len,
            n: hidden,
        },
        LoadModel {
            name: layer_tensor(layer, ".ffn_up_exps.weight"@),
            role: experts,
            m: m.expert_ff_len,
            n: hidden,
        },
        LoadModel {
            name: layer_tensor(layer, ".ffn_down_exps.weight"@),
            role: experts,
            m: hidden,
            n: m.expert_ff_len,
        },
    ]
}

/// The tensors of a layer's feed-forward part.
pub open spec fn ffn_loads(c: ConfigModel, layer: u32) -> Seq<LoadModel> {
    match c.moe {
        Some(m) => moe_ffn_loads(layer, c.embedding_length, m),
        None => dense_ffn_loads(layer, c.embedding_length, c.feed_forward_length),
    }
}

/// The tensors of a full-attention layer.
pub open spec fn attn_loads(c: ConfigModel, layer: u32, gated: bool) -> Seq<LoadModel> {
    let hidden = c.embedding_length;
    let q_dim = c.head_count * c.head_dim;
    let kv_dim = c.head_count_kv * c.head_dim;
    let q_out = if gated {
        2 * q_dim
    } else {
        q_dim
    };
    seq![
        vector(layer_tensor(layer, ".attn_norm.weight"@), hidden),
        linear(layer_tensor(layer, ".attn_q.weight"@), q_out, hidden as int),
        vector(layer_tensor(layer, ".attn_q_norm.weight"@), c.head_dim),
        linear(layer_tensor(layer, ".attn_k.weight"@), kv_dim, hidden as int),
        vector(layer_tensor(layer, ".attn_k_norm.weight"@), c.head_dim),
        linear(layer_tensor(layer, ".attn_v.weight"@), kv_dim, hidden as int),
        linear(layer_tensor(layer, ".attn_output.weight"@), hidden as int, q_dim),
        vector(layer_tensor(layer, ".post_attention_norm.weight"@), hidden),
    ] + ffn_loads(c, layer)
}

/// The tensors of a linear-attention layer.
pub open spec fn gdn_loads(c: ConfigModel, layer: u32) -> Seq<LoadModel> {
    let hidden = c.embedding_length;
    let g = c.gdn;
    seq![
        vector(layer_tensor(layer, ".attn_norm.weight"@), hidden),
        linear(layer_tensor(layer, ".attn_qkv.weight"@), g.conv_dim as int, hidden as int),
        linear(layer_tensor(layer, ".attn_gate.weight"@), g.value_dim as int, hidden as int),
        linear(layer_tensor(layer, ".ssm_beta.weight"@), g.num_v_heads as int, hidden as int),
        linear(layer_tensor(layer, ".ssm_alpha.weight"@), g.num_v_heads as int, hidden as int),
        LoadModel {
            name: layer_tensor(layer, ".ssm_conv1d.weight"@),
            role: TensorRole::MatrixF32,
            m: g.conv_dim,
            n: g.conv_kernel,
        },
        vector(layer_tensor(layer, ".ssm_dt.bias"@), g.num_v_heads),
        vector(layer_tensor(layer, ".ssm_a"@), g.num_v_heads),
        vector(layer_tensor(layer, ".ssm_norm.weight"@), g.head_v_dim),
        linear(layer_tensor(layer, ".ssm_out.weight"@), hidden as int, g.value_dim as int),
        vector(layer_tensor(layer, ".post_attention_norm.weight"@), hidden),
    ] + ffn_loads(c, layer)
}

/// The tensors outside the layers: embedding, final norm, output projection.
/// Without an output projection of its own, the embedding serves as one.
pub open spec fn model_loads(c: ConfigModel, has_output: bool) -> Seq<LoadModel> {
    seq![
        LoadModel {
            name: "token_embd.weight"@,
            role: TensorRole::MatrixF16,
            m: c.vocab_size,
            n: c.embedding_length,
        },
        vector("output_norm.weight"@, c.embedding_length),
        linear(
            if has_output {
                "output.weight"@
            } else {
                "token_embd.weight"@
            },
            c.vocab_size as int,
            c.embedding_length as int,
        ),
    ]
}

/// Whether a query projection's rows carry an output gate, or why they fit
/// neither way.
pub open spec fn output_gate(shape: Seq<u64>, q_dim: int) -> Result<bool, ConfigError> {
    if shape.len() < 2 {
        Err(ConfigError::QueryNotTwoDimensional)
    } else if shape[1] > u32::MAX {
        Err(ConfigError::QueryRowsOverflow { rows: shape[1] })
    } else if shape[1] == q_dim {
        Ok(false)
    } else if shape[1] == 2 * q_dim {
        Ok(true)
    } else {
        Err(ConfigError::QueryRows { rows: shape[1] as u32, q_dim: q_dim as u32 })
    }
}

/// Decides from the query projection's shape, innermost dimension first,
/// whether its rows carry an output gate.
pub fn has_output_gate(shape: &[u64], q_dim: u32) -> (r: Result<bool, ConfigError>)
    requires
        2 * q_dim <= u32::MAX,
    ensures
        r == output_gate(shape@, q_dim as int),
{
    if shape.len() < 2 {
        return Err(ConfigError::QueryNotTwoDimensional);
    }
    let rows: u64 = shape[1];
    if rows > u32::MAX as u64 {
        return Err(ConfigError::QueryRowsOverflow { rows });
    }
    let rows: u32 = rows as u32;
    if rows == q_dim {
        Ok(false)
    } else if rows == 2 * q_dim {
        Ok(true)
    } else {
        Err(ConfigError::QueryRows { rows, q_dim })
    }
}

/// The name of a layer's tensor.
pub fn layer_tensor_name(layer: u32, suffix: &str) -> (r: String)
    ensures
        r@ == layer_tensor(layer, suffix@),
{
    let mut name: String = "blk.".to_owned();
    push_decimal(&mut name, layer as u64);
    name.append(suffix);
    name
}

fn push_load(
    out: &mut Vec<TensorLoad>,
    layer: u32,
    suffix: &str,
    role: TensorRole,
    m: u32,
    n: u32,
)
    ensures
        loads_view(final(out)@) == loads_view(old(out)@).push(
            LoadModel { name: layer_tensor(layer, suffix@), role, m, n },
        ),
{
    let ghost before = out@;
    let t = TensorLoad { name: layer_tensor_name(layer, suffix), role, m, n };
    out.push(t);
    proof {
        assert(loads_view(out@) =~= loads_view(before).push(t@));
    }
}

fn push_vector(out: &mut Vec<TensorLoad>, layer: u32, suffix: &str, len: u32)
    ensures
        loads_view(final(out)@) == loads_view(old(out)@).push(
            vector(layer_tensor(layer, suffix@), len),
        ),
{
    push_load(out, layer, suffix, TensorRole::Vector, len, 1);
}

fn push_linear(out: &mut Vec<TensorLoad>, layer: u32, suffix: &str, m: u32, n: u32)
    ensures
        loads_view(final(out)@) == loads_view(old(out)@).push(
            linear(layer_tensor(layer, suffix@), m as int, n as int),
        ),
{
    push_load(out, layer, suffix, TensorRole::Linear, m, n);
}

impl FfnWeights {
    /// The shapes of a gated feed-forward part.
    pub fn new(hidden: u32, ffn: u32) -> (r: Self)
        ensures
            r.gate == (LinearWeight { m: ffn, n: hidden }),
            r.up == (LinearWeight { m: ffn, n: hidden }),
            r.down == (LinearWeight { m: hidden, n: ffn }),
    {
        FfnWeights {
            gate: LinearWeight { m: ffn, n: hidden },
            up: LinearWeight { m: ffn, n: hidden },
            down: LinearWeight { m: hidden, n: ffn },
        }
    }
}

fn push_dense_ffn(out: &mut Vec<TensorLoad>, layer: u32, hidden: u32, ffn: u32)
    ensures
        loads_view(final(out)@) == loads_view(old(out)@) + dense_ffn_loads(layer, hidden, ffn),
{
    let ghost before = loads_view(out@);
    push_linear(out, layer, ".ffn_gate.weight", ffn, hidden);
    push_linear(out, layer, ".ffn_up.weight", ffn, hidden);
    push_linear(out, layer, ".ffn_down.weight", hidden, ffn);
    proof {
        assert(loads_view(out@) =~= before + dense_ffn_loads(layer, hidden, ffn));
    }
}

fn push_moe_ffn(out: &mut Vec<TensorLoad>, layer: u32, hidden: u32, m: &MoeConfig)
    ensures
        loads_view(final(out)@) == loads_view(old(out)@) + moe_ffn_loads(layer, hidden, *m),
{
    let ghost before = loads_view(out@);
    let experts = TensorRole::Experts { count: m.expert_count };
    push_load(
        out,
        layer,
        ".ffn_gate_inp.weight",
        TensorRole::MatrixF32,
        m.expert_count,
        hidden,
    );
    push_vector(out, layer, ".ffn_gate_inp_shexp.weight", hidden);
    push_linear(out, layer, ".ffn_gate_shexp.weight", m.shared_ff_len, hidden);
    push_linear(out, layer, ".ffn_up_shexp.weight", m.shared_ff_len, hidden);
    push_linear(out, layer, ".ffn_down_shexp.weight", hidden, m.shared_ff_len);
    push_load(out, layer, ".ffn_gate_exps.weight", experts, m.expert_ff_len, hidden);
    push_load(out, layer, ".ffn_up_exps.weight", experts, m.expert_ff_len, hidden);
    push_load(out, layer, ".ffn_down_exps.weight", experts, hidden, m.expert_ff_len);
    proof {
        assert(loads_view(out@) =~= before + moe_ffn_loads(layer, hidden, *m));
    }
}

fn push_ffn(out: &mut Vec<TensorLoad>, cfg: &Qwen35Config, layer: u32)
    ensures
        loads_view(final(out)@) == loads_view(old(out)@) + ffn_loads(cfg@, layer),
{
    match &cfg.moe {
        Some(m) => push_moe_ffn(out, layer, cfg.embedding_length, m),
        None => push_dense_ffn(out, layer, cfg.embedding_length, cfg.feed_forward_length),
    }
}

/// The tensors of a full-attention layer.
pub fn attn_layer_loads(cfg: &Qwen35Config, layer: u32, gated: bool) -> (r: Vec<TensorLoad>)
    requires
        2 * (cfg.head_count * cfg.head_dim) <= u32::MAX,
        cfg.head_count_kv * cfg.head_dim <= u32::MAX,
    ensures
        loads_view(r@) == attn_loads(cfg@, layer, gated),
{
    let hidden: u32 = cfg.embedding_length;
    let q_dim: u32 = cfg.q_dim();
    let kv_dim: u32 = cfg.kv_dim();
    let q_out: u32 = if gated {
        2 * q_dim
    } else {
        q_dim
    };
    let mut out: Vec<TensorLoad> = Vec::new();
    push_vector(&mut out, layer, ".attn_norm.weight", hidden);
    push_linear(&mut out, layer, ".attn_q.weight", q_out, hidden);
    push_vector(&mut out, layer, ".attn_q_norm.weight", cfg.head_dim);
    push_linear(&mut out, layer, ".attn_k.weight", kv_dim, hidden);
    push_vector(&mut out, layer, ".attn_k_norm.weight", cfg.head_dim);
    push_linear(&mut out, layer, ".attn_v.weight", kv_dim, hidden);
    push_linear(&mut out, layer, ".attn_output.weight", hidden, q_dim);
    push_vector(&mut out, layer, ".post_attention_norm.weight", hidden);
    let ghost own = loads_view(out@);
    push_ffn(&mut out, cfg, layer);
    proof {
        assert(own + ffn_loads(cfg@, layer) =~= attn_loads(cfg@, layer, gated));
    }
    out
}

/// The tensors of a linear-attention layer.
pub fn gdn_layer_loads(cfg: &Qwen35Config, layer: u32) -> (r: Vec<TensorLoad>)
    ensures
        loads_view(r@) == gdn_loads(cfg@, layer),
{
    let hidden: u32 = cfg.embedding_length;
    let g = cfg.gdn;
    let mut out: Vec<TensorLoad> = Vec::new();
    push_vector(&mut out, layer, ".attn_norm.weight", hidden);
    push_linear(&mut out, layer, ".attn_qkv.weight", g.conv_dim, hidden);
    push_linear(&mut out, layer, ".attn_gate.weight", g.value_dim, hidden);
    push_linear(&mut out, layer, ".ssm_beta.weight", g.num_v_heads, hidden);
    push_linear(&mut out, layer, ".ssm_alpha.weight", g.num_v_heads, hidden);
    push_load(
        &mut out,
        layer,
        ".ssm_conv1d.weight",
        TensorRole::MatrixF32,
        g.conv_dim,
        g.conv_kernel,
    );
    push_vector(&mut out, layer, ".ssm_dt.bias", g.num_v_heads);
    push_vector(&mut out, layer, ".ssm_a", g.num_v_heads);
    push_vector(&mut out, layer, ".ssm_norm.weight", g.head_v_dim);
    push_linear(&mut out, layer, ".ssm_out.weight", hidden, g.value_dim);
    push_vector(&mut out, layer, ".post_attention_norm.weight", hidden);
    let ghost own = loads_view(out@);
    push_ffn(&mut out, cfg, layer);
    proof {
        assert(own + ffn_loads(cfg@, layer) =~= gdn_loads(cfg@, layer));
    }
    out
}

/// The tensors outside the layers. `has_output` says whether the checkpoint
/// has an output projection of its own.
pub fn model_level_loads(cfg: &Qwen35Config, has_output: bool) -> (r: Vec<TensorLoad>)
    ensures
        loads_view(r@) == model_loads(cfg@, has_output),
{
    let (vocab, hidden): (u32, u32) = (cfg.vocab_size, cfg.embedding_length);
    let output: String = if has_output {
        "output.weight".to_owned()
    } else {
        "token_embd.weight".to_owned()
    };
    let out: Vec<TensorLoad> = vec![
        TensorLoad {
            name: "token_embd.weight".to_owned(),
            role: TensorRole::MatrixF16,
            m: vocab,
            n: hidden,
        },
        TensorLoad {
            name: "output_norm.weight".to_owned(),
            role: TensorRole::Vector,
            m: hidden,
            n: 1,
        },
        TensorLoad { name: output, role: TensorRole::Linear, m: vocab, n: hidden },
    ];
    proof {
        assert(loads_view(out@) =~= model_loads(cfg@, has_output));
    }
    out
}

} // verus!
