//! One linear-attention layer's decode step: projections, causal
//! convolution, gates, per-head norms, one step of the gated delta-rule
//! recurrence, gated norm, output projection.

use super::attention::{norm_ops, norm_terms, push_norm};
use super::dims::dims_fit;
use super::plan::{
    lemma_ops_concat, lemma_ops_scope, ops_of, push_scope, scope, start, At, Buf, Eps, Linear, Op,
    OpKind, Step, Term,
};
use crate::qwen35::config::{ConfigModel, GdnConfig, Qwen35Config};
use vstd::prelude::*;

verus! {

/// Projections, convolution and gates of one token.
pub open spec fn conv_ops(c: ConfigModel) -> Seq<Op> {
    let g = c.gdn;
    let n = c.embedding_length;
    seq![
        Op::Matvec {
            w: Linear::AttnQkv,
            x: start(Buf::Xn),
            out: start(Buf::GdnQkv),
            m: g.conv_dim,
            n,
        },
        Op::Matvec {
            w: Linear::AttnGate,
            x: start(Buf::Xn),
            out: start(Buf::GdnZ),
            m: g.value_dim,
            n,
        },
        Op::Matvec {
            w: Linear::SsmAlpha,
            x: start(Buf::Xn),
            out: start(Buf::GdnARaw),
            m: g.num_v_heads,
            n,
        },
        Op::Matvec {
            w: Linear::SsmBeta,
            x: start(Buf::Xn),
            out: start(Buf::GdnBRaw),
            m: g.num_v_heads,
            n,
        },
        Op::GdnConv1dDecode { channels: g.conv_dim, kernel_size: g.conv_kernel },
        Op::GdnGate { n: g.num_v_heads },
    ]
}

/// The cost of projections and convolution of `rows` tokens.
pub open spec fn conv_terms(c: ConfigModel, rows: u32) -> Seq<Term> {
    let g = c.gdn;
    let n = c.embedding_length;
    seq![
        Term::Project { w: Linear::AttnQkv, m: g.conv_dim, n, rows },
        Term::Project { w: Linear::AttnGate, m: g.value_dim, n, rows },
        Term::Project { w: Linear::SsmAlpha, m: g.num_v_heads, n, rows },
        Term::Project { w: Linear::SsmBeta, m: g.num_v_heads, n, rows },
        Term::GdnConv { channels: g.conv_dim, kernel_size: g.conv_kernel, tokens: rows },
    ]
}

/// Where queries, keys and values start in the convolution's output.
pub open spec fn conv_part(g: GdnConfig, part: int) -> At {
    At { buf: Buf::GdnConvOut, offset: (part * g.key_dim) as usize }
}

/// Unit-length queries and keys, head by head, and the recurrence. The norm
/// weights make a root-mean-square norm a plain length norm; the queries'
/// also carry the recurrence's scale.
pub open spec fn recur_ops(g: GdnConfig) -> Seq<Op> {
    seq![
        Op::Rmsnorm {
            x: conv_part(g, 0),
            weight: Buf::L2AlphaQ,
            out: conv_part(g, 0),
            rows: g.num_k_heads,
            cols: g.head_k_dim,
            eps: Eps::Millionth { dim: g.head_k_dim },
        },
        Op::Rmsnorm {
            x: conv_part(g, 1),
            weight: Buf::L2AlphaK,
            out: conv_part(g, 1),
            rows: g.num_k_heads,
            cols: g.head_k_dim,
            eps: Eps::Millionth { dim: g.head_k_dim },
        },
        Op::GdnRecurrenceDecode {
            q: conv_part(g, 0),
            k: conv_part(g, 1),
            v: conv_part(g, 2),
            num_heads: g.num_v_heads,
            num_k_heads: g.num_k_heads,
            head_k_dim: g.head_k_dim,
            head_v_dim: g.head_v_dim,
        },
    ]
}

/// The cost of norms and recurrence.
pub open spec fn recur_terms(g: GdnConfig) -> Seq<Term> {
    seq![
        Term::GdnRecur {
            heads: g.num_v_heads,
            head_k_dim: g.head_k_dim,
            head_v_dim: g.head_v_dim,
        },
        Term::Norm { rows: g.num_k_heads, cols: g.head_k_dim },
        Term::Norm { rows: g.num_k_heads, cols: g.head_k_dim },
    ]
}

/// Gated norm, output projection and residual of one token.
pub open spec fn gdn_out_ops(c: ConfigModel) -> Seq<Op> {
    let g = c.gdn;
    seq![
        Op::Rmsnorm {
            x: start(Buf::GdnY),
            weight: Buf::SsmNorm,
            out: start(Buf::GdnY),
            rows: g.num_v_heads,
            cols: g.head_v_dim,
            eps: Eps::Rms,
        },
        Op::SiluMul {
            gate: start(Buf::GdnZ),
            up: start(Buf::GdnY),
            out: start(Buf::GdnY),
            n: g.value_dim,
        },
        Op::Matvec {
            w: Linear::SsmOut,
            x: start(Buf::GdnY),
            out: start(Buf::GdnOut),
            m: c.embedding_length,
            n: g.value_dim,
        },
        Op::AddInplace { x: start(Buf::X), y: start(Buf::GdnOut), n: c.embedding_length },
    ]
}

/// The cost of gated norm and output projection of `rows` tokens.
pub open spec fn gdn_out_terms(c: ConfigModel, rows: u32) -> Seq<Term> {
    seq![
        Term::Norm { rows: (rows * c.gdn.num_v_heads) as u32, cols: c.gdn.head_v_dim },
        Term::Project {
            w: Linear::SsmOut,
            m: c.embedding_length,
            n: c.gdn.value_dim,
            rows,
        },
    ]
}

/// The whole step.
pub open spec fn gdn_steps(c: ConfigModel, scoped: bool) -> Seq<Step> {
    scope(scoped, OpKind::Norm, norm_terms(c, 1), norm_ops(c, 1)) + scope(
        scoped,
        OpKind::GdnConv,
        conv_terms(c, 1),
        conv_ops(c),
    ) + scope(scoped, OpKind::GdnRecur, recur_terms(c.gdn), recur_ops(c.gdn)) + scope(
        scoped,
        OpKind::GdnOut,
        gdn_out_terms(c, 1),
        gdn_out_ops(c),
    )
}

/// What the device does in the step.
pub open spec fn gdn_ops(c: ConfigModel) -> Seq<Op> {
    norm_ops(c, 1) + conv_ops(c) + recur_ops(c.gdn) + gdn_out_ops(c)
}

/// The cost of the whole step, for a scope that covers a layer.
pub open spec fn gdn_cost(c: ConfigModel) -> Seq<Term> {
    norm_terms(c, 1) + conv_terms(c, 1) + recur_terms(c.gdn) + gdn_out_terms(c, 1)
}

/// Profiling changes nothing about what the device does.
pub proof fn lemma_gdn_ops(c: ConfigModel, scoped: bool)
    ensures
        ops_of(gdn_steps(c, scoped)) == gdn_ops(c),
{
    let s1 = scope(scoped, OpKind::Norm, norm_terms(c, 1), norm_ops(c, 1));
    let s2 = scope(scoped, OpKind::GdnConv, conv_terms(c, 1), conv_ops(c));
    let s3 = scope(scoped, OpKind::GdnRecur, recur_terms(c.gdn), recur_ops(c.gdn));
    let s4 = scope(scoped, OpKind::GdnOut, gdn_out_terms(c, 1), gdn_out_ops(c));
    lemma_ops_scope(scoped, OpKind::Norm, norm_terms(c, 1), norm_ops(c, 1));
    lemma_ops_scope(scoped, OpKind::GdnConv, conv_terms(c, 1), conv_ops(c));
    lemma_ops_scope(scoped, OpKind::GdnRecur, recur_terms(c.gdn), recur_ops(c.gdn));
    lemma_ops_scope(scoped, OpKind::GdnOut, gdn_out_terms(c, 1), gdn_out_ops(c));
    lemma_ops_concat(s1, s2);
    lemma_ops_concat(s1 + s2, s3);
    lemma_ops_concat(s1 + s2 + s3, s4);
}

/// The cost of projections and convolution of `rows` tokens.
pub fn gdn_conv_cost(config: &Qwen35Config, rows: u32) -> (r: Vec<Term>)
    ensures
        r@ == conv_terms(config@, rows),
{
    let g = config.gdn;
    let n: u32 = config.embedding_length;
    let terms: Vec<Term> = vec![
        Term::Project { w: Linear::AttnQkv, m: g.conv_dim, n, rows },
        Term::Project { w: Linear::AttnGate, m: g.value_dim, n, rows },
        Term::Project { w: Linear::SsmAlpha, m: g.num_v_heads, n, rows },
        Term::Project { w: Linear::SsmBeta, m: g.num_v_heads, n, rows },
        Term::GdnConv { channels: g.conv_dim, kernel_size: g.conv_kernel, tokens: rows },
    ];
    proof {
        assert(terms@ =~= conv_terms(config@, rows));
    }
    terms
}

fn recur_cost(g: &GdnConfig) -> (r: Vec<Term>)
    ensures
        r@ == recur_terms(*g),
{
    let terms: Vec<Term> = vec![
        Term::GdnRecur {
            heads: g.num_v_heads,
            head_k_dim: g.head_k_dim,
            head_v_dim: g.head_v_dim,
        },
        Term::Norm { rows: g.num_k_heads, cols: g.head_k_dim },
        Term::Norm { rows: g.num_k_heads, cols: g.head_k_dim },
    ];
    proof {
        assert(terms@ =~= recur_terms(*g));
    }
    terms
}

/// The cost of gated norm and output projection of `rows` tokens.
pub fn gdn_out_cost(config: &Qwen35Config, rows: u32) -> (r: Vec<Term>)
    requires
        rows * config.gdn.num_v_heads <= u32::MAX,
    ensures
        r@ == gdn_out_terms(config@, rows),
{
    let g = config.gdn;
    let terms: Vec<Term> = vec![
        Term::Norm { rows: rows * g.num_v_heads, cols: g.head_v_dim },
        Term::Project { w: Linear::SsmOut, m: config.embedding_length, n: g.value_dim, rows },
    ];
    proof {
        assert(terms@ =~= gdn_out_terms(config@, rows));
    }
    terms
}

/// Plans one linear-attention layer's decode step.
pub fn gdn_layer_step(steps: &mut Vec<Step>, config: &Qwen35Config, scoped: bool)
    requires
        dims_fit(config@, 1),
        2 * config.gdn.key_dim <= usize::MAX,
    ensures
        final(steps)@ == old(steps)@ + gdn_steps(config@, scoped),
{
    let ghost before = steps@;
    let g = config.gdn;
    let n: u32 = config.embedding_length;
    push_norm(steps, scoped, config, 1);

    let conv_cost = gdn_conv_cost(config, 1);
    let conv: Vec<Op> = vec![
        Op::Matvec {
            w: Linear::AttnQkv,
            x: start(Buf::Xn),
            out: start(Buf::GdnQkv),
            m: g.conv_dim,
            n,
        },
        Op::Matvec {
            w: Linear::AttnGate,
            x: start(Buf::Xn),
            out: start(Buf::GdnZ),
            m: g.value_dim,
            n,
        },
        Op::Matvec {
            w: Linear::SsmAlpha,
            x: start(Buf::Xn),
            out: start(Buf::GdnARaw),
            m: g.num_v_heads,
            n,
        },
        Op::Matvec {
            w: Linear::SsmBeta,
            x: start(Buf::Xn),
            out: start(Buf::GdnBRaw),
            m: g.num_v_heads,
            n,
        },
        Op::GdnConv1dDecode { channels: g.conv_dim, kernel_size: g.conv_kernel },
        Op::GdnGate { n: g.num_v_heads },
    ];
    proof {
        assert(conv@ =~= conv_ops(config@));
    }
    push_scope(steps, scoped, OpKind::GdnConv, conv_cost.as_slice(), conv.as_slice());

    let q = At { buf: Buf::GdnConvOut, offset: 0 };
    let k = At { buf: Buf::GdnConvOut, offset: g.key_dim as usize };
    let v = At { buf: Buf::GdnConvOut, offset: 2 * g.key_dim as usize };
    let eps = Eps::Millionth { dim: g.head_k_dim };
    let cost = recur_cost(&g);
    let recur: Vec<Op> = vec![
        Op::Rmsnorm {
            x: q,
            weight: Buf::L2AlphaQ,
            out: q,
            rows: g.num_k_heads,
            cols: g.head_k_dim,
            eps,
        },
        Op::Rmsnorm {
            x: k,
            weight: Buf::L2AlphaK,
            out: k,
            rows: g.num_k_heads,
            cols: g.head_k_dim,
            eps,
        },
        Op::GdnRecurrenceDecode {
            q,
            k,
            v,
            num_heads: g.num_v_heads,
            num_k_heads: g.num_k_heads,
            head_k_dim: g.head_k_dim,
            head_v_dim: g.head_v_dim,
        },
    ];
    proof {
        assert(recur@ =~= recur_ops(g));
    }
    push_scope(steps, scoped, OpKind::GdnRecur, cost.as_slice(), recur.as_slice());

    let out_cost = gdn_out_cost(config, 1);
    let y = start(Buf::GdnY);
    let out: Vec<Op> = vec![
        Op::Rmsnorm {
            x: y,
            weight: Buf::SsmNorm,
            out: y,
            rows: g.num_v_heads,
            cols: g.head_v_dim,
            eps: Eps::Rms,
        },
        Op::SiluMul { gate: start(Buf::GdnZ), up: y, out: y, n: g.value_dim },
        Op::Matvec {
            w: Linear::SsmOut,
            x: y,
            out: start(Buf::GdnOut),
            m: n,
            n: g.value_dim,
        },
        Op::AddInplace { x: start(Buf::X), y: start(Buf::GdnOut), n },
    ];
    proof {
        assert(out@ =~= gdn_out_ops(config@));
    }
    push_scope(steps, scoped, OpKind::GdnOut, out_cost.as_slice(), out.as_slice());
    proof {
        assert(steps@ =~= before + gdn_steps(config@, scoped));
    }
}

/// The cost of a whole decode step.
pub fn gdn_layer_step_cost(config: &Qwen35Config) -> (r: Vec<Term>)
    ensures
        r@ == gdn_cost(config@),
{
    let mut terms: Vec<Term> = vec![Term::Norm { rows: 1, cols: config.embedding_length }];
    let mut conv = gdn_conv_cost(config, 1);
    let mut recur = recur_cost(&config.gdn);
    let mut out = gdn_out_cost(config, 1);
    terms.append(&mut conv);
    terms.append(&mut recur);
    terms.append(&mut out);
    proof {
        assert(terms@ =~= gdn_cost(config@));
    }
    terms
}

} // verus!
