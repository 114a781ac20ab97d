//! One full-attention layer's decode step: projections, per-head norms,
//! partial rotation, the new position's keys and values into the cache,
//! attention over everything cached, output gate, output projection.

use super::dims::{dims_fit, kv_dim, lemma_widths, q_dim, q_out};
use super::plan::{
    ops_of, push_scope, scope, start, At, Buf, Eps, Linear, Op, OpKind, Step, Term,
};
use crate::qwen35::cache::hybrid::{AttnCacheModel, AttnLayerCache};
use crate::qwen35::cache::layout::appended;
use crate::qwen35::cache::mixed::{append_ops, ptrs_of};
use crate::qwen35::cache::plane::plane_fits;
use crate::qwen35::cache::rows::row_ops;
use crate::qwen35::config::{ConfigModel, Qwen35Config};
use crate::load_opts::KvDtype;
use vstd::prelude::*;

verus! {

/// Normalises the residual stream of `rows` tokens with a layer's first norm.
pub open spec fn norm_ops(c: ConfigModel, rows: u32) -> Seq<Op> {
    seq![
        Op::Rmsnorm {
            x: start(Buf::X),
            weight: Buf::AttnNorm,
            out: start(Buf::Xn),
            rows,
            cols: c.embedding_length,
            eps: Eps::Rms,
        },
    ]
}

/// Moves the first `heads` heads' queries, and gates where there are any, out
/// of the fused projection: each head's query is followed by its gate.
pub open spec fn split_ops(gated: bool, heads: nat, head_dim: u32) -> Seq<Op>
    decreases heads,
{
    if heads == 0 {
        Seq::empty()
    } else {
        let h = heads - 1;
        let stride = if gated {
            2 * head_dim
        } else {
            head_dim as int
        };
        let before = split_ops(gated, h as nat, head_dim);
        let query = before.push(
            Op::CopyDevice {
                dst: At { buf: Buf::AttnQ, offset: (h * head_dim) as usize },
                src: At { buf: Buf::AttnQRaw, offset: (h * stride) as usize },
                len: head_dim as usize,
            },
        );
        if gated {
            query.push(
                Op::CopyDevice {
                    dst: At { buf: Buf::AttnGate, offset: (h * head_dim) as usize },
                    src: At { buf: Buf::AttnQRaw, offset: (h * stride + head_dim) as usize },
                    len: head_dim as usize,
                },
            )
        } else {
            query
        }
    }
}

/// The three projections of one token.
pub open spec fn project_ops(c: ConfigModel, gated: bool) -> Seq<Op> {
    let hidden = c.embedding_length;
    seq![
        Op::Matvec {
            w: Linear::AttnQ,
            x: start(Buf::Xn),
            out: start(Buf::AttnQRaw),
            m: q_out(c, gated) as u32,
            n: hidden,
        },
        Op::Matvec {
            w: Linear::AttnK,
            x: start(Buf::Xn),
            out: start(Buf::AttnK),
            m: kv_dim(c) as u32,
            n: hidden,
        },
        Op::Matvec {
            w: Linear::AttnV,
            x: start(Buf::Xn),
            out: start(Buf::AttnV),
            m: kv_dim(c) as u32,
            n: hidden,
        },
    ]
}

/// Normalises and rotates `rows` tokens' query and key heads, in place.
pub open spec fn head_ops(c: ConfigModel, rows: u32, pos_base: u32) -> Seq<Op> {
    seq![
        Op::Rmsnorm {
            x: start(Buf::AttnQ),
            weight: Buf::AttnQNorm,
            out: start(Buf::AttnQ),
            rows: (rows * c.head_count) as u32,
            cols: c.head_dim,
            eps: Eps::Rms,
        },
        Op::Rmsnorm {
            x: start(Buf::AttnK),
            weight: Buf::AttnKNorm,
            out: start(Buf::AttnK),
            rows: (rows * c.head_count_kv) as u32,
            cols: c.head_dim,
            eps: Eps::Rms,
        },
        Op::RopePartial {
            x: start(Buf::AttnQ),
            tokens: rows,
            heads: c.head_count,
            head_dim: c.head_dim,
            rot_dim: c.rope_dim_count,
            freq_base: c.rope_freq_base,
            pos_base,
        },
        Op::RopePartial {
            x: start(Buf::AttnK),
            tokens: rows,
            heads: c.head_count_kv,
            head_dim: c.head_dim,
            rot_dim: c.rope_dim_count,
            freq_base: c.rope_freq_base,
            pos_base,
        },
    ]
}

/// The cost of `rows` tokens' projections and head norms.
pub open spec fn qkv_terms(c: ConfigModel, gated: bool, rows: u32) -> Seq<Term> {
    let hidden = c.embedding_length;
    seq![
        Term::Project { w: Linear::AttnQ, m: q_out(c, gated) as u32, n: hidden, rows },
        Term::Project { w: Linear::AttnK, m: kv_dim(c) as u32, n: hidden, rows },
        Term::Project { w: Linear::AttnV, m: kv_dim(c) as u32, n: hidden, rows },
        Term::Norm { rows: (rows * c.head_count) as u32, cols: c.head_dim },
        Term::Norm { rows: (rows * c.head_count_kv) as u32, cols: c.head_dim },
    ]
}

/// A layer's cache after one position was appended.
pub open spec fn cache_appended(cache: AttnCacheModel, pos: int) -> AttnCacheModel {
    match cache {
        AttnCacheModel::Dense(dtype) => cache,
        AttnCacheModel::Mixed(m) => AttnCacheModel::Mixed(m.with_layout(appended(m.layout, pos))),
    }
}

/// Appends the position and attends over everything up to it.
pub open spec fn attend_ops(c: ConfigModel, cache: AttnCacheModel, max_seq: u32, pos: u32) -> Seq<
    Op,
> {
    match cache {
        AttnCacheModel::Dense(dtype) => row_ops(
            dtype,
            Buf::PlaneK,
            Buf::PlaneV,
            max_seq,
            pos,
            c.head_count_kv as nat,
            c.head_dim,
        ).push(
            Op::AttnDecode {
                dtype,
                n_heads: c.head_count,
                n_kv_heads: c.head_count_kv,
                head_dim: c.head_dim,
                max_seq,
                cur_len: (pos + 1) as u32,
            },
        ),
        AttnCacheModel::Mixed(m) => append_ops(m, pos as int).push(
            Op::AttnDecodeMixed {
                ptrs: ptrs_of(m.with_layout(appended(m.layout, pos as int))),
                n_heads: c.head_count,
                n_kv_heads: c.head_count_kv,
                head_dim: c.head_dim,
                cur_len: (pos + 1) as u32,
            },
        ),
    }
}

/// The output gate, where there is one.
pub open spec fn gate_ops(c: ConfigModel, gated: bool, rows: u32) -> Seq<Op> {
    if gated {
        seq![
            Op::SigmoidMul {
                x: start(Buf::AttnConcat),
                gate: start(Buf::AttnGate),
                out: start(Buf::AttnConcat),
                n: (rows * q_dim(c)) as u32,
            },
        ]
    } else {
        Seq::empty()
    }
}

/// Gate, output projection and residual of one token.
pub open spec fn out_ops(c: ConfigModel, gated: bool) -> Seq<Op> {
    gate_ops(c, gated, 1) + seq![
        Op::Matvec {
            w: Linear::AttnOutput,
            x: start(Buf::AttnConcat),
            out: start(Buf::AttnOut),
            m: c.embedding_length,
            n: q_dim(c) as u32,
        },
        Op::AddInplace { x: start(Buf::X), y: start(Buf::AttnOut), n: c.embedding_length },
    ]
}

/// The cost of the output projection of `rows` tokens.
pub open spec fn out_terms(c: ConfigModel, rows: u32) -> Seq<Term> {
    seq![
        Term::Project {
            w: Linear::AttnOutput,
            m: c.embedding_length,
            n: q_dim(c) as u32,
            rows,
        },
    ]
}

/// The cost of one query over the cache, and of writing the position.
pub open spec fn attend_terms(c: ConfigModel, cur_len: int, n_splits: u32) -> Seq<Term> {
    seq![
        Term::AttnDecode {
            n_heads: c.head_count,
            n_kv_heads: c.head_count_kv,
            cur_len: cur_len as u32,
            head_dim: c.head_dim,
            n_splits,
        },
        Term::Exact { bytes: (kv_dim(c) * 8) as u64, flops: 0 },
    ]
}

/// The cost of normalising `rows` rows of the residual stream.
pub open spec fn norm_terms(c: ConfigModel, rows: u32) -> Seq<Term> {
    seq![Term::Norm { rows, cols: c.embedding_length }]
}

/// The whole step.
pub open spec fn attention_steps(
    c: ConfigModel,
    gated: bool,
    cache: AttnCacheModel,
    max_seq: u32,
    pos: u32,
    n_splits: u32,
    scoped: bool,
) -> Seq<Step> {
    scope(scoped, OpKind::Norm, norm_terms(c, 1), norm_ops(c, 1)) + scope(
        scoped,
        OpKind::Qkv,
        qkv_terms(c, gated, 1),
        project_ops(c, gated) + split_ops(gated, c.head_count as nat, c.head_dim) + head_ops(
            c,
            1,
            pos,
        ),
    ) + scope(
        scoped,
        OpKind::AttnDecode,
        attend_terms(c, pos + 1, n_splits),
        attend_ops(c, cache, max_seq, pos),
    ) + scope(scoped, OpKind::AttnOut, out_terms(c, 1), out_ops(c, gated))
}

/// What the device does in the step.
pub open spec fn attention_ops(
    c: ConfigModel,
    gated: bool,
    cache: AttnCacheModel,
    max_seq: u32,
    pos: u32,
) -> Seq<Op> {
    norm_ops(c, 1) + (project_ops(c, gated) + split_ops(gated, c.head_count as nat, c.head_dim)
        + head_ops(c, 1, pos)) + attend_ops(c, cache, max_seq, pos) + out_ops(c, gated)
}

/// The cost of the whole step, for a scope that covers a layer.
pub open spec fn attention_cost(c: ConfigModel, gated: bool, cur_len: u32) -> Seq<Term> {
    norm_terms(c, 1) + qkv_terms(c, gated, 1) + seq![
        Term::AttnDecode {
            n_heads: c.head_count,
            n_kv_heads: c.head_count_kv,
            cur_len,
            head_dim: c.head_dim,
            n_splits: 1,
        },
    ] + out_terms(c, 1)
}

/// A layer's cache can take the position.
pub open spec fn can_append(
    c: ConfigModel,
    cache: AttnCacheModel,
    max_seq: u32,
    pos: int,
    rows: int,
) -> bool {
    &&& pos + rows <= max_seq
    &&& match cache {
        AttnCacheModel::Dense(_) => plane_fits(c.head_count_kv, max_seq, c.head_dim),
        AttnCacheModel::Mixed(m) => {
            &&& m.valid()
            &&& m.n_kv_heads == c.head_count_kv
            &&& m.head_dim == c.head_dim
            &&& m.layout.is_next(pos)
            &&& max_seq <= m.layout.sink_len + m.bulk_cap
        },
    }
}

/// Profiling changes nothing about what the device does.
pub proof fn lemma_attention_ops(
    c: ConfigModel,
    gated: bool,
    cache: AttnCacheModel,
    max_seq: u32,
    pos: u32,
    n_splits: u32,
    scoped: bool,
)
    ensures
        ops_of(attention_steps(c, gated, cache, max_seq, pos, n_splits, scoped)) == attention_ops(
            c,
            gated,
            cache,
            max_seq,
            pos,
        ),
{
    let qkv = project_ops(c, gated) + split_ops(gated, c.head_count as nat, c.head_dim) + head_ops(
        c,
        1,
        pos,
    );
    let s1 = scope(scoped, OpKind::Norm, norm_terms(c, 1), norm_ops(c, 1));
    let s2 = scope(scoped, OpKind::Qkv, qkv_terms(c, gated, 1), qkv);
    let s3 = scope(
        scoped,
        OpKind::AttnDecode,
        attend_terms(c, pos + 1, n_splits),
        attend_ops(c, cache, max_seq, pos),
    );
    let s4 = scope(scoped, OpKind::AttnOut, out_terms(c, 1), out_ops(c, gated));
    super::plan::lemma_ops_scope(scoped, OpKind::Norm, norm_terms(c, 1), norm_ops(c, 1));
    super::plan::lemma_ops_scope(scoped, OpKind::Qkv, qkv_terms(c, gated, 1), qkv);
    super::plan::lemma_ops_scope(
        scoped,
        OpKind::AttnDecode,
        attend_terms(c, pos + 1, n_splits),
        attend_ops(c, cache, max_seq, pos),
    );
    super::plan::lemma_ops_scope(scoped, OpKind::AttnOut, out_terms(c, 1), out_ops(c, gated));
    super::plan::lemma_ops_concat(s1, s2);
    super::plan::lemma_ops_concat(s1 + s2, s3);
    super::plan::lemma_ops_concat(s1 + s2 + s3, s4);
}

fn push_splits(ops: &mut Vec<Op>, gated: bool, heads: u32, head_dim: u32)
    requires
        heads * head_dim * 2 <= u32::MAX,
    ensures
        final(ops)@ == old(ops)@ + split_ops(gated, heads as nat, head_dim),
{
    let ghost before = ops@;
    let mut h: u32 = 0;
    proof {
        assert(before + split_ops(gated, 0, head_dim) =~= before);
    }
    while h < heads
        invariant
            h <= heads,
            heads * head_dim * 2 <= u32::MAX,
            ops@ == before + split_ops(gated, h as nat, head_dim),
        decreases heads - h,
    {
        proof {
            assert(0 <= h * head_dim && h * head_dim + head_dim <= heads * head_dim)
                by (nonlinear_arith)
                requires
                    0 <= h,
                    h + 1 <= heads,
                    0 <= head_dim,
            ;
            assert(h * (2 * head_dim) == 2 * (h * head_dim)) by (nonlinear_arith);
        }
        let stride: u32 = if gated {
            2 * head_dim
        } else {
            head_dim
        };
        ops.push(
            Op::CopyDevice {
                dst: At { buf: Buf::AttnQ, offset: (h * head_dim) as usize },
                src: At { buf: Buf::AttnQRaw, offset: (h * stride) as usize },
                len: head_dim as usize,
            },
        );
        if gated {
            ops.push(
                Op::CopyDevice {
                    dst: At { buf: Buf::AttnGate, offset: (h * head_dim) as usize },
                    src: At { buf: Buf::AttnQRaw, offset: (h * stride + head_dim) as usize },
                    len: head_dim as usize,
                },
            );
        }
        h = h + 1;
        proof {
            assert(ops@ =~= before + split_ops(gated, h as nat, head_dim));
        }
    }
}

/// Appends the norm of `rows` tokens' residual stream.
pub fn push_norm(steps: &mut Vec<Step>, scoped: bool, config: &Qwen35Config, rows: u32)
    ensures
        final(steps)@ == old(steps)@ + scope(
            scoped,
            OpKind::Norm,
            norm_terms(config@, rows),
            norm_ops(config@, rows),
        ),
{
    let hidden: u32 = config.embedding_length;
    let terms: Vec<Term> = vec![Term::Norm { rows, cols: hidden }];
    let ops: Vec<Op> = vec![
        Op::Rmsnorm {
            x: start(Buf::X),
            weight: Buf::AttnNorm,
            out: start(Buf::Xn),
            rows,
            cols: hidden,
            eps: Eps::Rms,
        },
    ];
    proof {
        assert(terms@ =~= norm_terms(config@, rows));
        assert(ops@ =~= norm_ops(config@, rows));
    }
    push_scope(steps, scoped, OpKind::Norm, terms.as_slice(), ops.as_slice());
}

/// The cost of `rows` tokens' projections and head norms.
pub fn qkv_cost(config: &Qwen35Config, gated: bool, rows: u32) -> (r: Vec<Term>)
    requires
        dims_fit(config@, rows as int),
    ensures
        r@ == qkv_terms(config@, gated, rows),
{
    proof {
        lemma_widths(config@, rows as int);
    }
    let hidden: u32 = config.embedding_length;
    let q: u32 = config.q_dim();
    let kv: u32 = config.kv_dim();
    let m: u32 = if gated {
        2 * q
    } else {
        q
    };
    let terms: Vec<Term> = vec![
        Term::Project { w: Linear::AttnQ, m, n: hidden, rows },
        Term::Project { w: Linear::AttnK, m: kv, n: hidden, rows },
        Term::Project { w: Linear::AttnV, m: kv, n: hidden, rows },
        Term::Norm { rows: rows * config.head_count, cols: config.head_dim },
        Term::Norm { rows: rows * config.head_count_kv, cols: config.head_dim },
    ];
    proof {
        assert(terms@ =~= qkv_terms(config@, gated, rows));
    }
    terms
}

/// Appends the norms and rotations of `rows` tokens' heads.
pub fn push_heads(ops: &mut Vec<Op>, config: &Qwen35Config, rows: u32, pos_base: u32)
    requires
        dims_fit(config@, rows as int),
    ensures
        final(ops)@ == old(ops)@ + head_ops(config@, rows, pos_base),
{
    proof {
        lemma_widths(config@, rows as int);
    }
    let ghost before = ops@;
    ops.push(
        Op::Rmsnorm {
            x: start(Buf::AttnQ),
            weight: Buf::AttnQNorm,
            out: start(Buf::AttnQ),
            rows: rows * config.head_count,
            cols: config.head_dim,
            eps: Eps::Rms,
        },
    );
    ops.push(
        Op::Rmsnorm {
            x: start(Buf::AttnK),
            weight: Buf::AttnKNorm,
            out: start(Buf::AttnK),
            rows: rows * config.head_count_kv,
            cols: config.head_dim,
            eps: Eps::Rms,
        },
    );
    ops.push(
        Op::RopePartial {
            x: start(Buf::AttnQ),
            tokens: rows,
            heads: config.head_count,
            head_dim: config.head_dim,
            rot_dim: config.rope_dim_count,
            freq_base: config.rope_freq_base,
            pos_base,
        },
    );
    ops.push(
        Op::RopePartial {
            x: start(Buf::AttnK),
            tokens: rows,
            heads: config.head_count_kv,
            head_dim: config.head_dim,
            rot_dim: config.rope_dim_count,
            freq_base: config.rope_freq_base,
            pos_base,
        },
    );
    proof {
        assert(ops@ =~= before + head_ops(config@, rows, pos_base));
    }
}

fn push_qkv(steps: &mut Vec<Step>, scoped: bool, config: &Qwen35Config, gated: bool, pos: u32)
    requires
        dims_fit(config@, 1),
    ensures
        final(steps)@ == old(steps)@ + scope(
            scoped,
            OpKind::Qkv,
            qkv_terms(config@, gated, 1),
            project_ops(config@, gated) + split_ops(
                gated,
                config.head_count as nat,
                config.head_dim,
            ) + head_ops(config@, 1, pos),
        ),
{
    proof {
        lemma_widths(config@, 1);
    }
    let hidden: u32 = config.embedding_length;
    let q: u32 = config.q_dim();
    let kv: u32 = config.kv_dim();
    let m: u32 = if gated {
        2 * q
    } else {
        q
    };
    let terms = qkv_cost(config, gated, 1);
    let mut ops: Vec<Op> = vec![
        Op::Matvec {
            w: Linear::AttnQ,
            x: start(Buf::Xn),
            out: start(Buf::AttnQRaw),
            m,
            n: hidden,
        },
        Op::Matvec {
            w: Linear::AttnK,
            x: start(Buf::Xn),
            out: start(Buf::AttnK),
            m: kv,
            n: hidden,
        },
        Op::Matvec {
            w: Linear::AttnV,
            x: start(Buf::Xn),
            out: start(Buf::AttnV),
            m: kv,
            n: hidden,
        },
    ];
    proof {
        assert(ops@ =~= project_ops(config@, gated));
    }
    push_splits(&mut ops, gated, config.head_count, config.head_dim);
    push_heads(&mut ops, config, 1, pos);
    push_scope(steps, scoped, OpKind::Qkv, terms.as_slice(), ops.as_slice());
}

fn push_attend(
    steps: &mut Vec<Step>,
    scoped: bool,
    config: &Qwen35Config,
    cache: &mut AttnLayerCache,
    max_seq: u32,
    pos: u32,
    n_splits: u32,
)
    requires
        dims_fit(config@, 1),
        can_append(config@, old(cache)@, max_seq, pos as int, 1),
    ensures
        final(cache)@ == cache_appended(old(cache)@, pos as int),
        final(steps)@ == old(steps)@ + scope(
            scoped,
            OpKind::AttnDecode,
            attend_terms(config@, pos + 1, n_splits),
            attend_ops(config@, old(cache)@, max_seq, pos),
        ),
{
    proof {
        lemma_widths(config@, 1);
    }
    let ghost held = cache@;
    let (n_heads, n_kv_heads, head_dim): (u32, u32, u32) = (
        config.head_count,
        config.head_count_kv,
        config.head_dim,
    );
    let cur_len: u32 = pos + 1;
    let kv: u32 = config.kv_dim();
    let terms: Vec<Term> = vec![
        Term::AttnDecode { n_heads, n_kv_heads, cur_len, head_dim, n_splits },
        Term::Exact { bytes: kv as u64 * 8, flops: 0 },
    ];
    proof {
        assert(terms@ =~= attend_terms(config@, pos + 1, n_splits));
    }
    let mut ops: Vec<Op> = Vec::new();
    match *cache {
        AttnLayerCache::Dense(plane) => {
            plane.append(&mut ops, pos, max_seq, n_kv_heads, head_dim);
            let dtype: KvDtype = plane.dtype();
            ops.push(
                Op::AttnDecode { dtype, n_heads, n_kv_heads, head_dim, max_seq, cur_len },
            );
        },
        AttnLayerCache::Mixed(plane) => {
            let mut plane = plane;
            plane.append(&mut ops, pos);
            ops.push(
                Op::AttnDecodeMixed {
                    ptrs: plane.ptrs(),
                    n_heads,
                    n_kv_heads,
                    head_dim,
                    cur_len,
                },
            );
            *cache = AttnLayerCache::Mixed(plane);
        },
    }
    proof {
        assert(ops@ =~= attend_ops(config@, held, max_seq, pos));
    }
    push_scope(steps, scoped, OpKind::AttnDecode, terms.as_slice(), ops.as_slice());
}

fn push_out(steps: &mut Vec<Step>, scoped: bool, config: &Qwen35Config, gated: bool)
    requires
        dims_fit(config@, 1),
    ensures
        final(steps)@ == old(steps)@ + scope(
            scoped,
            OpKind::AttnOut,
            out_terms(config@, 1),
            out_ops(config@, gated),
        ),
{
    proof {
        lemma_widths(config@, 1);
    }
    let hidden: u32 = config.embedding_length;
    let q: u32 = config.q_dim();
    let terms: Vec<Term> = vec![
        Term::Project { w: Linear::AttnOutput, m: hidden, n: q, rows: 1 },
    ];
    let mut ops: Vec<Op> = Vec::new();
    if gated {
        ops.push(
            Op::SigmoidMul {
                x: start(Buf::AttnConcat),
                gate: start(Buf::AttnGate),
                out: start(Buf::AttnConcat),
                n: q,
            },
        );
    }
    ops.push(
        Op::Matvec {
            w: Linear::AttnOutput,
            x: start(Buf::AttnConcat),
            out: start(Buf::AttnOut),
            m: hidden,
            n: q,
        },
    );
    ops.push(Op::AddInplace { x: start(Buf::X), y: start(Buf::AttnOut), n: hidden });
    proof {
        assert(terms@ =~= out_terms(config@, 1));
        assert(ops@ =~= out_ops(config@, gated));
    }
    push_scope(steps, scoped, OpKind::AttnOut, terms.as_slice(), ops.as_slice());
}

/// Plans one full-attention layer's decode step at position `pos`, over a
/// cache of `max_seq` positions. `n_splits` is how many parts the attention
/// kernel splits the cached positions into; only the cost depends on it.
pub fn attention_step(
    steps: &mut Vec<Step>,
    config: &Qwen35Config,
    has_output_gate: bool,
    cache: &mut AttnLayerCache,
    max_seq: u32,
    pos: u32,
    n_splits: u32,
    scoped: bool,
)
    requires
        dims_fit(config@, 1),
        can_append(config@, old(cache)@, max_seq, pos as int, 1),
    ensures
        final(cache)@ == cache_appended(old(cache)@, pos as int),
        final(steps)@ == old(steps)@ + attention_steps(
            config@,
            has_output_gate,
            old(cache)@,
            max_seq,
            pos,
            n_splits,
            scoped,
        ),
{
    let ghost before = steps@;
    let ghost held = cache@;
    push_norm(steps, scoped, config, 1);
    push_qkv(steps, scoped, config, has_output_gate, pos);
    push_attend(steps, scoped, config, cache, max_seq, pos, n_splits);
    push_out(steps, scoped, config, has_output_gate);
    proof {
        assert(steps@ =~= before + attention_steps(
            config@,
            has_output_gate,
            held,
            max_seq,
            pos,
            n_splits,
            scoped,
        ));
    }
}

/// The cost of a whole decode step.
pub fn attention_step_cost(config: &Qwen35Config, has_output_gate: bool, cur_len: u32) -> (r: Vec<
    Term,
>)
    requires
        dims_fit(config@, 1),
    ensures
        r@ == attention_cost(config@, has_output_gate, cur_len),
{
    proof {
        lemma_widths(config@, 1);
    }
    let hidden: u32 = config.embedding_length;
    let mut terms: Vec<Term> = vec![Term::Norm { rows: 1, cols: hidden }];
    let mut qkv = qkv_cost(config, has_output_gate, 1);
    terms.append(&mut qkv);
    terms.push(
        Term::AttnDecode {
            n_heads: config.head_count,
            n_kv_heads: config.head_count_kv,
            cur_len,
            head_dim: config.head_dim,
            n_splits: 1,
        },
    );
    terms.push(
        Term::Project { w: Linear::AttnOutput, m: hidden, n: config.q_dim(), rows: 1 },
    );
    proof {
        assert(terms@ =~= attention_cost(config@, has_output_gate, cur_len));
    }
    terms
}

} // verus!
