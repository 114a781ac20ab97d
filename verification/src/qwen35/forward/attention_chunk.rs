//! One full-attention layer's step over a whole chunk: the same stages as
//! the decode step, each in one pass over every token of the chunk. The
//! chunk's keys and values enter the cache before any of its queries read it.

use super::attention::{
    gate_ops, head_ops, norm_ops, norm_terms, out_terms, push_heads, push_norm, qkv_cost, qkv_terms,
};
use super::dims::{dims_fit, kv_dim, lemma_widths, q_dim, q_out};
use super::plan::{
    lemma_ops_concat, lemma_ops_scope, ops_of, push_scope, scope, start, Buf, Linear, Op, OpKind,
    Step, Term,
};
use crate::load_opts::KvDtype;
use crate::qwen35::cache::layout::appended_each;
use crate::qwen35::cache::mixed::{append_chunk_ops, ptrs_of, MixedAttnPlane, PlaneModel};
use crate::qwen35::cache::plane::AttnPlane;
use crate::qwen35::config::{ConfigModel, Qwen35Config};
use vstd::prelude::*;

verus! {

/// The three projections of a chunk.
pub open spec fn chunk_project_ops(c: ConfigModel, gated: bool, rows: u32) -> Seq<Op> {
    let n = c.embedding_length;
    seq![
        Op::Matmul {
            w: Linear::AttnQ,
            x: start(Buf::Xn),
            out: start(Buf::AttnQRaw),
            rows,
            m: q_out(c, gated) as u32,
            n,
        },
        Op::Matmul {
            w: Linear::AttnK,
            x: start(Buf::Xn),
            out: start(Buf::AttnK),
            rows,
            m: kv_dim(c) as u32,
            n,
        },
        Op::Matmul {
            w: Linear::AttnV,
            x: start(Buf::Xn),
            out: start(Buf::AttnV),
            rows,
            m: kv_dim(c) as u32,
            n,
        },
    ]
}

/// Moves every head's query out of the fused projection, and its gate where
/// there is one.
pub open spec fn chunk_split_ops(c: ConfigModel, gated: bool, rows: u32) -> Seq<Op> {
    let src_stride = if gated {
        (2 * c.head_dim) as u32
    } else {
        c.head_dim
    };
    let query = Op::ExtractHeads {
        src: start(Buf::AttnQRaw),
        dst: start(Buf::AttnQ),
        tokens: rows,
        heads: c.head_count,
        head_dim: c.head_dim,
        src_stride,
        src_offset: 0,
    };
    if gated {
        seq![
            query,
            Op::ExtractHeads {
                src: start(Buf::AttnQRaw),
                dst: start(Buf::AttnGate),
                tokens: rows,
                heads: c.head_count,
                head_dim: c.head_dim,
                src_stride,
                src_offset: c.head_dim,
            },
        ]
    } else {
        seq![query]
    }
}

/// Projections, extraction, norms and rotations of a chunk.
pub open spec fn chunk_qkv_ops(c: ConfigModel, gated: bool, rows: u32, pos_base: u32) -> Seq<Op> {
    chunk_project_ops(c, gated, rows) + chunk_split_ops(c, gated, rows) + head_ops(
        c,
        rows,
        pos_base,
    )
}

/// Writes the chunk into a dense plane and attends.
pub open spec fn chunk_attend_dense_ops(
    c: ConfigModel,
    dtype: KvDtype,
    max_seq: u32,
    pos_base: u32,
    rows: u32,
) -> Seq<Op> {
    seq![
        Op::ScatterKv {
            dtype,
            k_src: start(Buf::AttnK),
            v_src: start(Buf::AttnV),
            k_dst: Buf::PlaneK,
            v_dst: Buf::PlaneV,
            n_kv_heads: c.head_count_kv,
            head_dim: c.head_dim,
            max_seq,
            rows,
            pos_base,
        },
        Op::AttnPrefill {
            dtype,
            n_heads: c.head_count,
            n_kv_heads: c.head_count_kv,
            head_dim: c.head_dim,
            max_seq,
            chunk_len: rows,
            pos_base,
        },
    ]
}

/// Appends the chunk to a mixed cache and attends.
pub open spec fn chunk_attend_mixed_ops(
    c: ConfigModel,
    m: PlaneModel,
    pos_base: u32,
    rows: u32,
) -> Seq<Op> {
    append_chunk_ops(m, pos_base as int, rows as int).push(
        Op::AttnPrefillMixed {
            ptrs: ptrs_of(
                m.with_layout(appended_each(m.layout, pos_base as int, rows as nat)),
            ),
            n_heads: c.head_count,
            n_kv_heads: c.head_count_kv,
            head_dim: c.head_dim,
            chunk_len: rows,
            pos_base,
        },
    )
}

/// The cost of a chunk's attention.
pub open spec fn chunk_attend_terms(c: ConfigModel, pos_base: u32, rows: u32) -> Seq<Term> {
    seq![
        Term::AttnPrefill {
            n_heads: c.head_count,
            n_kv_heads: c.head_count_kv,
            head_dim: c.head_dim,
            pos_base,
            chunk_len: rows,
        },
    ]
}

/// Gate, output projection and residual of a chunk.
pub open spec fn chunk_out_ops(c: ConfigModel, gated: bool, rows: u32) -> Seq<Op> {
    gate_ops(c, gated, rows) + seq![
        Op::Matmul {
            w: Linear::AttnOutput,
            x: start(Buf::AttnConcat),
            out: start(Buf::AttnOut),
            rows,
            m: c.embedding_length,
            n: q_dim(c) as u32,
        },
        Op::AddInplace {
            x: start(Buf::X),
            y: start(Buf::AttnOut),
            n: (rows * c.embedding_length) as u32,
        },
    ]
}

/// A chunk's step, given what its attention runs.
pub open spec fn chunk_steps(
    c: ConfigModel,
    gated: bool,
    attend: Seq<Op>,
    pos_base: u32,
    rows: u32,
    scoped: bool,
) -> Seq<Step> {
    scope(scoped, OpKind::Norm, norm_terms(c, rows), norm_ops(c, rows)) + scope(
        scoped,
        OpKind::Qkv,
        qkv_terms(c, gated, rows),
        chunk_qkv_ops(c, gated, rows, pos_base),
    ) + scope(scoped, OpKind::AttnDecode, chunk_attend_terms(c, pos_base, rows), attend) + scope(
        scoped,
        OpKind::AttnOut,
        out_terms(c, rows),
        chunk_out_ops(c, gated, rows),
    )
}

/// The chunk can be appended to a mixed cache of `max_seq` positions.
pub open spec fn can_append_mixed(
    c: ConfigModel,
    m: PlaneModel,
    max_seq: u32,
    pos_base: int,
    rows: int,
) -> bool {
    &&& m.valid()
    &&& m.n_kv_heads == c.head_count_kv
    &&& m.head_dim == c.head_dim
    &&& m.layout.is_next(pos_base)
    &&& pos_base + rows <= max_seq
    &&& max_seq <= m.layout.sink_len + m.bulk_cap
}

/// What the device does over a chunk, scopes aside.
pub proof fn lemma_chunk_ops(
    c: ConfigModel,
    gated: bool,
    attend: Seq<Op>,
    pos_base: u32,
    rows: u32,
    scoped: bool,
)
    ensures
        ops_of(chunk_steps(c, gated, attend, pos_base, rows, scoped)) == norm_ops(c, rows)
            + chunk_qkv_ops(c, gated, rows, pos_base) + attend + chunk_out_ops(c, gated, rows),
{
    let s1 = scope(scoped, OpKind::Norm, norm_terms(c, rows), norm_ops(c, rows));
    let s2 = scope(
        scoped,
        OpKind::Qkv,
        qkv_terms(c, gated, rows),
        chunk_qkv_ops(c, gated, rows, pos_base),
    );
    let s3 = scope(scoped, OpKind::AttnDecode, chunk_attend_terms(c, pos_base, rows), attend);
    let s4 = scope(scoped, OpKind::AttnOut, out_terms(c, rows), chunk_out_ops(c, gated, rows));
    lemma_ops_scope(scoped, OpKind::Norm, norm_terms(c, rows), norm_ops(c, rows));
    lemma_ops_scope(
        scoped,
        OpKind::Qkv,
        qkv_terms(c, gated, rows),
        chunk_qkv_ops(c, gated, rows, pos_base),
    );
    lemma_ops_scope(scoped, OpKind::AttnDecode, chunk_attend_terms(c, pos_base, rows), attend);
    lemma_ops_scope(scoped, OpKind::AttnOut, out_terms(c, rows), chunk_out_ops(c, gated, rows));
    lemma_ops_concat(s1, s2);
    lemma_ops_concat(s1 + s2, s3);
    lemma_ops_concat(s1 + s2 + s3, s4);
}

fn push_chunk_qkv(
    steps: &mut Vec<Step>,
    scoped: bool,
    config: &Qwen35Config,
    gated: bool,
    pos_base: u32,
    rows: u32,
)
    requires
        dims_fit(config@, rows as int),
        2 * config.head_dim <= u32::MAX,
    ensures
        final(steps)@ == old(steps)@ + scope(
            scoped,
            OpKind::Qkv,
            qkv_terms(config@, gated, rows),
            chunk_qkv_ops(config@, gated, rows, pos_base),
        ),
{
    proof {
        lemma_widths(config@, rows as int);
    }
    let n: u32 = config.embedding_length;
    let (heads, head_dim): (u32, u32) = (config.head_count, config.head_dim);
    let q: u32 = config.q_dim();
    let kv: u32 = config.kv_dim();
    let m: u32 = if gated {
        2 * q
    } else {
        q
    };
    let terms = qkv_cost(config, gated, rows);
    let mut ops: Vec<Op> = vec![
        Op::Matmul {
            w: Linear::AttnQ,
            x: start(Buf::Xn),
            out: start(Buf::AttnQRaw),
            rows,
            m,
            n,
        },
        Op::Matmul {
            w: Linear::AttnK,
            x: start(Buf::Xn),
            out: start(Buf::AttnK),
            rows,
            m: kv,
            n,
        },
        Op::Matmul {
            w: Linear::AttnV,
            x: start(Buf::Xn),
            out: start(Buf::AttnV),
            rows,
            m: kv,
            n,
        },
    ];
    proof {
        assert(ops@ =~= chunk_project_ops(config@, gated, rows));
    }
    let src_stride: u32 = if gated {
        2 * head_dim
    } else {
        head_dim
    };
    ops.push(
        Op::ExtractHeads {
            src: start(Buf::AttnQRaw),
            dst: start(Buf::AttnQ),
            tokens: rows,
            heads,
            head_dim,
            src_stride,
            src_offset: 0,
        },
    );
    if gated {
        ops.push(
            Op::ExtractHeads {
                src: start(Buf::AttnQRaw),
                dst: start(Buf::AttnGate),
                tokens: rows,
                heads,
                head_dim,
                src_stride,
                src_offset: head_dim,
            },
        );
    }
    proof {
        assert(ops@ =~= chunk_project_ops(config@, gated, rows) + chunk_split_ops(
            config@,
            gated,
            rows,
        ));
    }
    push_heads(&mut ops, config, rows, pos_base);
    push_scope(steps, scoped, OpKind::Qkv, terms.as_slice(), ops.as_slice());
}

fn push_chunk_out(
    steps: &mut Vec<Step>,
    scoped: bool,
    config: &Qwen35Config,
    gated: bool,
    rows: u32,
)
    requires
        dims_fit(config@, rows as int),
    ensures
        final(steps)@ == old(steps)@ + scope(
            scoped,
            OpKind::AttnOut,
            out_terms(config@, rows),
            chunk_out_ops(config@, gated, rows),
        ),
{
    proof {
        lemma_widths(config@, rows as int);
    }
    let hidden: u32 = config.embedding_length;
    let q: u32 = config.q_dim();
    let terms: Vec<Term> = vec![Term::Project { w: Linear::AttnOutput, m: hidden, n: q, rows }];
    let mut ops: Vec<Op> = Vec::new();
    if gated {
        ops.push(
            Op::SigmoidMul {
                x: start(Buf::AttnConcat),
                gate: start(Buf::AttnGate),
                out: start(Buf::AttnConcat),
                n: rows * q,
            },
        );
    }
    ops.push(
        Op::Matmul {
            w: Linear::AttnOutput,
            x: start(Buf::AttnConcat),
            out: start(Buf::AttnOut),
            rows,
            m: hidden,
            n: q,
        },
    );
    ops.push(Op::AddInplace { x: start(Buf::X), y: start(Buf::AttnOut), n: rows * hidden });
    proof {
        assert(terms@ =~= out_terms(config@, rows));
        assert(ops@ =~= chunk_out_ops(config@, gated, rows));
    }
    push_scope(steps, scoped, OpKind::AttnOut, terms.as_slice(), ops.as_slice());
}

fn attend_cost(config: &Qwen35Config, pos_base: u32, rows: u32) -> (r: Vec<Term>)
    ensures
        r@ == chunk_attend_terms(config@, pos_base, rows),
{
    let terms: Vec<Term> = vec![
        Term::AttnPrefill {
            n_heads: config.head_count,
            n_kv_heads: config.head_count_kv,
            head_dim: config.head_dim,
            pos_base,
            chunk_len: rows,
        },
    ];
    proof {
        assert(terms@ =~= chunk_attend_terms(config@, pos_base, rows));
    }
    terms
}

/// Plans one full-attention layer's step over `chunk_len` tokens at
/// positions from `pos_base` on, with a dense cache of `max_seq` positions.
pub fn attention_chunk_step(
    steps: &mut Vec<Step>,
    config: &Qwen35Config,
    has_output_gate: bool,
    plane: &AttnPlane,
    max_seq: u32,
    pos_base: u32,
    chunk_len: u32,
    scoped: bool,
)
    requires
        dims_fit(config@, chunk_len as int),
        2 * config.head_dim <= u32::MAX,
        pos_base + chunk_len <= max_seq,
    ensures
        final(steps)@ == old(steps)@ + chunk_steps(
            config@,
            has_output_gate,
            chunk_attend_dense_ops(config@, plane.spec_dtype(), max_seq, pos_base, chunk_len),
            pos_base,
            chunk_len,
            scoped,
        ),
{
    let ghost before = steps@;
    push_norm(steps, scoped, config, chunk_len);
    push_chunk_qkv(steps, scoped, config, has_output_gate, pos_base, chunk_len);
    let terms = attend_cost(config, pos_base, chunk_len);
    let dtype: KvDtype = plane.dtype();
    let ops: Vec<Op> = vec![
        Op::ScatterKv {
            dtype,
            k_src: start(Buf::AttnK),
            v_src: start(Buf::AttnV),
            k_dst: Buf::PlaneK,
            v_dst: Buf::PlaneV,
            n_kv_heads: config.head_count_kv,
            head_dim: config.head_dim,
            max_seq,
            rows: chunk_len,
            pos_base,
        },
        Op::AttnPrefill {
            dtype,
            n_heads: config.head_count,
            n_kv_heads: config.head_count_kv,
            head_dim: config.head_dim,
            max_seq,
            chunk_len,
            pos_base,
        },
    ];
    proof {
        assert(ops@ =~= chunk_attend_dense_ops(config@, dtype, max_seq, pos_base, chunk_len));
    }
    push_scope(steps, scoped, OpKind::AttnDecode, terms.as_slice(), ops.as_slice());
    push_chunk_out(steps, scoped, config, has_output_gate, chunk_len);
    proof {
        assert(steps@ =~= before + chunk_steps(
            config@,
            has_output_gate,
            ops@,
            pos_base,
            chunk_len,
            scoped,
        ));
    }
}

/// Plans one full-attention layer's step over `chunk_len` tokens at
/// positions from `pos_base` on, with a mixed cache of `max_seq` positions.
pub fn attention_chunk_step_mixed(
    steps: &mut Vec<Step>,
    config: &Qwen35Config,
    has_output_gate: bool,
    plane: &mut MixedAttnPlane,
    max_seq: u32,
    pos_base: u32,
    chunk_len: u32,
    scoped: bool,
)
    requires
        dims_fit(config@, chunk_len as int),
        2 * config.head_dim <= u32::MAX,
        can_append_mixed(config@, old(plane)@, max_seq, pos_base as int, chunk_len as int),
    ensures
        final(plane).wf(),
        final(plane)@ == old(plane)@.with_layout(
            appended_each(old(plane)@.layout, pos_base as int, chunk_len as nat),
        ),
        final(steps)@ == old(steps)@ + chunk_steps(
            config@,
            has_output_gate,
            chunk_attend_mixed_ops(config@, old(plane)@, pos_base, chunk_len),
            pos_base,
            chunk_len,
            scoped,
        ),
{
    let ghost before = steps@;
    let ghost m = plane@;
    push_norm(steps, scoped, config, chunk_len);
    push_chunk_qkv(steps, scoped, config, has_output_gate, pos_base, chunk_len);
    let terms = attend_cost(config, pos_base, chunk_len);
    let mut ops: Vec<Op> = Vec::new();
    plane.append_chunk(&mut ops, pos_base, chunk_len);
    ops.push(
        Op::AttnPrefillMixed {
            ptrs: plane.ptrs(),
            n_heads: config.head_count,
            n_kv_heads: config.head_count_kv,
            head_dim: config.head_dim,
            chunk_len,
            pos_base,
        },
    );
    proof {
        assert(ops@ =~= chunk_attend_mixed_ops(config@, m, pos_base, chunk_len));
    }
    push_scope(steps, scoped, OpKind::AttnDecode, terms.as_slice(), ops.as_slice());
    push_chunk_out(steps, scoped, config, has_output_gate, chunk_len);
    proof {
        assert(steps@ =~= before + chunk_steps(
            config@,
            has_output_gate,
            ops@,
            pos_base,
            chunk_len,
            scoped,
        ));
    }
}

/// How many cached positions the first `n` queries of a chunk read together:
/// the query at row `i` reads every position up to its own.
pub open spec fn positions_read(pos_base: int, n: nat) -> int
    decreases n,
{
    if n == 0 {
        0
    } else {
        positions_read(pos_base, (n - 1) as nat) + pos_base + n
    }
}

/// Bytes and operations of a chunk's attention: keys and values of every
/// position read, the output written, and two multiply-adds per element read.
pub open spec fn prefill_cost(
    n_heads: int,
    n_kv_heads: int,
    head_dim: int,
    pos_base: int,
    chunk_len: nat,
) -> (int, int) {
    let read = positions_read(pos_base, chunk_len);
    (
        2 * (n_kv_heads * head_dim) * read * 4 + chunk_len * (n_heads * head_dim) * 4,
        4 * (n_heads * head_dim) * read,
    )
}

/// The closed form of the positions read.
proof fn lemma_positions_read(pos_base: int, n: nat)
    ensures
        2 * positions_read(pos_base, n) == 2 * (n * pos_base) + n * (n + 1),
    decreases n,
{
    if n > 0 {
        let k: nat = (n - 1) as nat;
        lemma_positions_read(pos_base, k);
        assert(n * pos_base == k * pos_base + pos_base) by (nonlinear_arith)
            requires
                n == k + 1,
        ;
        assert(n * (n + 1) == k * (k + 1) + 2 * n) by (nonlinear_arith)
            requires
                n == k + 1,
        ;
    } else {
        assert(n * pos_base == 0 && n * (n + 1) == 0) by (nonlinear_arith)
            requires
                n == 0,
        ;
    }
}

/// Bytes and operations of a chunk's attention over a dense cache.
pub fn attn_prefill_cost(
    n_heads: u32,
    n_kv_heads: u32,
    head_dim: u32,
    pos_base: u32,
    chunk_len: u32,
) -> (r: (u64, u64))
    requires
        positions_read(pos_base as int, chunk_len as nat) <= u64::MAX,
        prefill_cost(
            n_heads as int,
            n_kv_heads as int,
            head_dim as int,
            pos_base as int,
            chunk_len as nat,
        ).0 <= u64::MAX,
        prefill_cost(
            n_heads as int,
            n_kv_heads as int,
            head_dim as int,
            pos_base as int,
            chunk_len as nat,
        ).1 <= u64::MAX,
    ensures
        (r.0 as int, r.1 as int) == prefill_cost(
            n_heads as int,
            n_kv_heads as int,
            head_dim as int,
            pos_base as int,
            chunk_len as nat,
        ),
{
    let (cl, pb): (u64, u64) = (chunk_len as u64, pos_base as u64);
    let ghost read = positions_read(pos_base as int, chunk_len as nat);
    let ghost kv = (n_kv_heads * head_dim) as int;
    let ghost q = (n_heads * head_dim) as int;
    proof {
        lemma_positions_read(pos_base as int, chunk_len as nat);
        assert(0 <= cl * pb <= 0xffff_ffff * 0xffff_ffff) by (nonlinear_arith)
            requires
                0 <= cl <= 0xffff_ffff,
                0 <= pb <= 0xffff_ffff,
        ;
        assert(0 <= cl * (cl + 1) <= 0xffff_ffff * 0x1_0000_0000) by (nonlinear_arith)
            requires
                0 <= cl <= 0xffff_ffff,
        ;
        assert(0 <= kv <= 0xffff_ffff * 0xffff_ffff) by (nonlinear_arith)
            requires
                kv == n_kv_heads * head_dim,
                0 <= n_kv_heads <= 0xffff_ffff,
                0 <= head_dim <= 0xffff_ffff,
        ;
        assert(0 <= q <= 0xffff_ffff * 0xffff_ffff) by (nonlinear_arith)
            requires
                q == n_heads * head_dim,
                0 <= n_heads <= 0xffff_ffff,
                0 <= head_dim <= 0xffff_ffff,
        ;
    }
    let half: u64 = cl * (cl + 1) / 2;
    proof {
        assert(read == cl * pb + half) by {
            assert(2 * half == cl * (cl + 1)) by {
                assert((cl * (cl + 1)) % 2 == 0) by {
                    assert(cl * (cl + 1) == 2 * (read - cl * pb));
                }
            }
        }
    }
    let sum_cur_len: u64 = cl * pb + half;
    let width_kv: u64 = n_kv_heads as u64 * head_dim as u64;
    let width_q: u64 = n_heads as u64 * head_dim as u64;
    proof {
        lemma_factors(2 * kv, read, 4);
        lemma_factors(cl as int, q, 4);
        lemma_factors(4 * q, read, 1);
        lemma_small_factor(kv, read, 2);
        lemma_small_factor(q, read, 4);
    }
    if sum_cur_len == 0 {
        proof {
            assert(2 * kv * read * 4 == 0 && 4 * q * read == 0) by (nonlinear_arith)
                requires
                    read == 0,
            ;
        }
        return (cl * width_q * 4, 0);
    }
    let kv_read: u64 = 2 * width_kv * sum_cur_len * 4;
    let out_write: u64 = cl * width_q * 4;
    let flops: u64 = 4 * width_q * sum_cur_len;
    (kv_read + out_write, flops)
}

proof fn lemma_factors(a: int, b: int, c: int)
    requires
        0 <= a,
        0 <= b,
        1 <= c,
    ensures
        0 <= a * b <= a * b * c,
{
    assert(0 <= a * b) by (nonlinear_arith)
        requires
            0 <= a,
            0 <= b,
    ;
    assert(a * b <= a * b * c) by (nonlinear_arith)
        requires
            0 <= a * b,
            1 <= c,
    ;
}

proof fn lemma_small_factor(a: int, b: int, k: int)
    requires
        0 <= a,
        0 <= b,
        0 <= k,
    ensures
        b >= 1 ==> k * a <= k * a * b,
{
    if b >= 1 {
        assert(0 <= k * a) by (nonlinear_arith)
            requires
                0 <= a,
                0 <= k,
        ;
        assert(k * a <= k * a * b) by (nonlinear_arith)
            requires
                0 <= k * a,
                1 <= b,
        ;
    }
}

/// Bytes and operations of a chunk's attention over a mixed cache: every
/// position is read whichever part it lives in.
pub fn attn_prefill_mixed_cost(
    n_heads: u32,
    n_kv_heads: u32,
    head_dim: u32,
    pos_base: u32,
    chunk_len: u32,
) -> (r: (u64, u64))
    requires
        positions_read(pos_base as int, chunk_len as nat) <= u64::MAX,
        prefill_cost(
            n_heads as int,
            n_kv_heads as int,
            head_dim as int,
            pos_base as int,
            chunk_len as nat,
        ).0 <= u64::MAX,
        prefill_cost(
            n_heads as int,
            n_kv_heads as int,
            head_dim as int,
            pos_base as int,
            chunk_len as nat,
        ).1 <= u64::MAX,
    ensures
        (r.0 as int, r.1 as int) == prefill_cost(
            n_heads as int,
            n_kv_heads as int,
            head_dim as int,
            pos_base as int,
            chunk_len as nat,
        ),
{
    attn_prefill_cost(n_heads, n_kv_heads, head_dim, pos_base, chunk_len)
}

} // verus!
