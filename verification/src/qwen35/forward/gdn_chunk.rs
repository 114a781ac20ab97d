//! One linear-attention layer's step over a whole chunk.

use super::attention::{norm_ops, norm_terms, push_norm};
use super::dims::{dims_fit, lemma_widths};
use super::gdn::{conv_terms, gdn_conv_cost, gdn_out_cost, gdn_out_terms};
use super::gdn_chunkwise::{chunkwise_ops, gdn_chunkwise_step, GDN_RECUR_TILE};
use super::plan::{
    lemma_ops_concat, lemma_ops_record, lemma_ops_runs, lemma_ops_scope, lemma_ops_scope_of, ops_of,
    push_enter, push_leave, push_record, push_runs, push_scope, record, runs, scope, scope_of,
    start, Buf, Eps, Linear, Op, OpKind, Probe, Step, Term,
};
use crate::math::{ceil_div, div_ceil, greatest, least, max_u32, min_u32};
use crate::qwen35::config::{ConfigModel, GdnConfig, Qwen35Config};
use vstd::prelude::*;

verus! {

/// The fused projection of a chunk.
pub open spec fn chunk_qkv_op(c: ConfigModel, rows: u32) -> Seq<Op> {
    seq![
        Op::Matmul {
            w: Linear::AttnQkv,
            x: start(Buf::Xn),
            out: start(Buf::GdnQkv),
            rows,
            m: c.gdn.conv_dim,
            n: c.embedding_length,
        },
    ]
}

/// The other projections, the convolution and the gates of a chunk. The
/// convolution reads the history as it was before the chunk; only then is it
/// moved past the chunk.
pub open spec fn chunk_conv_ops(c: ConfigModel, rows: u32) -> Seq<Op> {
    let g = c.gdn;
    let n = c.embedding_length;
    seq![
        Op::Matmul {
            w: Linear::AttnGate,
            x: start(Buf::Xn),
            out: start(Buf::GdnZ),
            rows,
            m: g.value_dim,
            n,
        },
        Op::Matmul {
            w: Linear::SsmAlpha,
            x: start(Buf::Xn),
            out: start(Buf::GdnARaw),
            rows,
            m: g.num_v_heads,
            n,
        },
        Op::Matmul {
            w: Linear::SsmBeta,
            x: start(Buf::Xn),
            out: start(Buf::GdnBRaw),
            rows,
            m: g.num_v_heads,
            n,
        },
        Op::GdnConv1dChunk { channels: g.conv_dim, kernel_size: g.conv_kernel, chunk_len: rows },
        Op::GdnConv1dChunkStateUpdate {
            channels: g.conv_dim,
            kernel_size: g.conv_kernel,
            chunk_len: rows,
        },
        Op::GdnGateChunk { heads: g.num_v_heads, chunk_len: rows },
    ]
}

/// The cost of a chunk's recurrence: one tile's, as often as there are tiles.
pub open spec fn chunk_recur_terms(g: GdnConfig, rows: u32) -> Seq<Term> {
    seq![
        Term::GdnChunkwise {
            heads: g.num_v_heads,
            tile_len: least(rows as int, GDN_RECUR_TILE as int) as u32,
            head_k_dim: g.head_k_dim,
            head_v_dim: g.head_v_dim,
            tiles: greatest(ceil_div(rows as int, GDN_RECUR_TILE as int), 1) as u32,
        },
    ]
}

/// Gated norm of a chunk.
pub open spec fn chunk_gate_ops(c: ConfigModel, rows: u32) -> Seq<Op> {
    let g = c.gdn;
    seq![
        Op::Rmsnorm {
            x: start(Buf::GdnY),
            weight: Buf::SsmNorm,
            out: start(Buf::GdnY),
            rows: (rows * g.num_v_heads) as u32,
            cols: g.head_v_dim,
            eps: Eps::Rms,
        },
        Op::SiluMul {
            gate: start(Buf::GdnZ),
            up: start(Buf::GdnY),
            out: start(Buf::GdnY),
            n: (rows * g.value_dim) as u32,
        },
    ]
}

/// Output projection of a chunk.
pub open spec fn chunk_ssm_out_op(c: ConfigModel, rows: u32) -> Seq<Op> {
    seq![
        Op::Matmul {
            w: Linear::SsmOut,
            x: start(Buf::GdnY),
            out: start(Buf::GdnOut),
            rows,
            m: c.embedding_length,
            n: c.gdn.value_dim,
        },
    ]
}

/// Residual of a chunk.
pub open spec fn chunk_gdn_add_op(c: ConfigModel, rows: u32) -> Seq<Op> {
    seq![
        Op::AddInplace {
            x: start(Buf::X),
            y: start(Buf::GdnOut),
            n: (rows * c.embedding_length) as u32,
        },
    ]
}

/// Convolution stage of a chunk.
pub open spec fn chunk_conv_steps(c: ConfigModel, rows: u32, scoped: bool, captured: bool) -> Seq<
    Step,
> {
    scope_of(
        scoped,
        OpKind::GdnConv,
        conv_terms(c, rows),
        runs(chunk_qkv_op(c, rows)) + record(
            captured,
            Probe::GdnQkvRaw,
            Buf::GdnQkv,
            rows,
            c.gdn.conv_dim,
        ) + runs(chunk_conv_ops(c, rows)),
    )
}

/// Output stage of a chunk.
pub open spec fn chunk_gdn_out_steps(c: ConfigModel, rows: u32, scoped: bool, captured: bool) -> Seq<
    Step,
> {
    scope_of(
        scoped,
        OpKind::GdnOut,
        gdn_out_terms(c, rows),
        runs(chunk_gate_ops(c, rows)) + record(
            captured,
            Probe::GdnYSilu,
            Buf::GdnY,
            rows,
            c.gdn.value_dim,
        ) + runs(chunk_ssm_out_op(c, rows)) + record(
            captured,
            Probe::GdnSsmOutRaw,
            Buf::GdnOut,
            rows,
            c.embedding_length,
        ) + runs(chunk_gdn_add_op(c, rows)),
    )
}

/// The whole step.
pub open spec fn gdn_chunk_steps(c: ConfigModel, rows: u32, scoped: bool, captured: bool) -> Seq<
    Step,
> {
    scope(scoped, OpKind::Norm, norm_terms(c, rows), norm_ops(c, rows)) + record(
        captured,
        Probe::GdnXn,
        Buf::Xn,
        rows,
        c.embedding_length,
    ) + chunk_conv_steps(c, rows, scoped, captured) + scope(
        scoped,
        OpKind::GdnRecur,
        chunk_recur_terms(c.gdn, rows),
        chunkwise_ops(c.gdn, rows as int),
    ) + chunk_gdn_out_steps(c, rows, scoped, captured)
}

/// What the device does in the step.
pub open spec fn gdn_chunk_ops(c: ConfigModel, rows: u32) -> Seq<Op> {
    norm_ops(c, rows) + (chunk_qkv_op(c, rows) + chunk_conv_ops(c, rows)) + chunkwise_ops(
        c.gdn,
        rows as int,
    ) + (chunk_gate_ops(c, rows) + chunk_ssm_out_op(c, rows) + chunk_gdn_add_op(c, rows))
}

/// Neither profiling nor recording changes what the device does.
pub proof fn lemma_gdn_chunk_ops(c: ConfigModel, rows: u32, scoped: bool, captured: bool)
    ensures
        ops_of(gdn_chunk_steps(c, rows, scoped, captured)) == gdn_chunk_ops(c, rows),
{
    let e = Seq::<Op>::empty();
    let s1 = scope(scoped, OpKind::Norm, norm_terms(c, rows), norm_ops(c, rows));
    let r1 = record(captured, Probe::GdnXn, Buf::Xn, rows, c.embedding_length);
    let s2 = chunk_conv_steps(c, rows, scoped, captured);
    let s3 = scope(
        scoped,
        OpKind::GdnRecur,
        chunk_recur_terms(c.gdn, rows),
        chunkwise_ops(c.gdn, rows as int),
    );
    let s4 = chunk_gdn_out_steps(c, rows, scoped, captured);
    lemma_ops_scope(scoped, OpKind::Norm, norm_terms(c, rows), norm_ops(c, rows));
    lemma_ops_record(captured, Probe::GdnXn, Buf::Xn, rows, c.embedding_length);
    lemma_conv_ops(c, rows, scoped, captured);
    lemma_ops_scope(
        scoped,
        OpKind::GdnRecur,
        chunk_recur_terms(c.gdn, rows),
        chunkwise_ops(c.gdn, rows as int),
    );
    lemma_out_ops(c, rows, scoped, captured);
    lemma_ops_concat(s1, r1);
    lemma_ops_concat(s1 + r1, s2);
    lemma_ops_concat(s1 + r1 + s2, s3);
    lemma_ops_concat(s1 + r1 + s2 + s3, s4);
    assert(norm_ops(c, rows) + e =~= norm_ops(c, rows));
}

pub proof fn lemma_conv_ops(c: ConfigModel, rows: u32, scoped: bool, captured: bool)
    ensures
        ops_of(chunk_conv_steps(c, rows, scoped, captured)) == chunk_qkv_op(c, rows)
            + chunk_conv_ops(c, rows),
{
    let a = runs(chunk_qkv_op(c, rows));
    let r = record(captured, Probe::GdnQkvRaw, Buf::GdnQkv, rows, c.gdn.conv_dim);
    let b = runs(chunk_conv_ops(c, rows));
    lemma_ops_runs(chunk_qkv_op(c, rows));
    lemma_ops_runs(chunk_conv_ops(c, rows));
    lemma_ops_record(captured, Probe::GdnQkvRaw, Buf::GdnQkv, rows, c.gdn.conv_dim);
    lemma_ops_concat(a, r);
    lemma_ops_concat(a + r, b);
    lemma_ops_scope_of(scoped, OpKind::GdnConv, conv_terms(c, rows), a + r + b);
    assert(chunk_qkv_op(c, rows) + Seq::<Op>::empty() =~= chunk_qkv_op(c, rows));
}

pub proof fn lemma_out_ops(c: ConfigModel, rows: u32, scoped: bool, captured: bool)
    ensures
        ops_of(chunk_gdn_out_steps(c, rows, scoped, captured)) == chunk_gate_ops(c, rows)
            + chunk_ssm_out_op(c, rows) + chunk_gdn_add_op(c, rows),
{
    let e = Seq::<Op>::empty();
    let a = runs(chunk_gate_ops(c, rows));
    let r1 = record(captured, Probe::GdnYSilu, Buf::GdnY, rows, c.gdn.value_dim);
    let b = runs(chunk_ssm_out_op(c, rows));
    let r2 = record(captured, Probe::GdnSsmOutRaw, Buf::GdnOut, rows, c.embedding_length);
    let d = runs(chunk_gdn_add_op(c, rows));
    lemma_ops_runs(chunk_gate_ops(c, rows));
    lemma_ops_runs(chunk_ssm_out_op(c, rows));
    lemma_ops_runs(chunk_gdn_add_op(c, rows));
    lemma_ops_record(captured, Probe::GdnYSilu, Buf::GdnY, rows, c.gdn.value_dim);
    lemma_ops_record(captured, Probe::GdnSsmOutRaw, Buf::GdnOut, rows, c.embedding_length);
    lemma_ops_concat(a, r1);
    lemma_ops_concat(a + r1, b);
    lemma_ops_concat(a + r1 + b, r2);
    lemma_ops_concat(a + r1 + b + r2, d);
    lemma_ops_scope_of(scoped, OpKind::GdnOut, gdn_out_terms(c, rows), a + r1 + b + r2 + d);
    assert(chunk_gate_ops(c, rows) + e =~= chunk_gate_ops(c, rows));
    assert(chunk_gate_ops(c, rows) + chunk_ssm_out_op(c, rows) + e =~= chunk_gate_ops(c, rows)
        + chunk_ssm_out_op(c, rows));
}

fn push_conv(
    steps: &mut Vec<Step>,
    config: &Qwen35Config,
    rows: u32,
    scoped: bool,
    captured: bool,
)
    ensures
        final(steps)@ == old(steps)@ + chunk_conv_steps(config@, rows, scoped, captured),
{
    let ghost before = steps@;
    let g = config.gdn;
    let n: u32 = config.embedding_length;
    let cost = gdn_conv_cost(config, rows);
    push_enter(steps, scoped, OpKind::GdnConv, cost.as_slice());
    let qkv: Vec<Op> = vec![
        Op::Matmul {
            w: Linear::AttnQkv,
            x: start(Buf::Xn),
            out: start(Buf::GdnQkv),
            rows,
            m: g.conv_dim,
            n,
        },
    ];
    proof {
        assert(qkv@ =~= chunk_qkv_op(config@, rows));
    }
    push_runs(steps, qkv.as_slice());
    push_record(steps, captured, Probe::GdnQkvRaw, Buf::GdnQkv, rows, g.conv_dim);
    let rest: Vec<Op> = vec![
        Op::Matmul {
            w: Linear::AttnGate,
            x: start(Buf::Xn),
            out: start(Buf::GdnZ),
            rows,
            m: g.value_dim,
            n,
        },
        Op::Matmul {
            w: Linear::SsmAlpha,
            x: start(Buf::Xn),
            out: start(Buf::GdnARaw),
            rows,
            m: g.num_v_heads,
            n,
        },
        Op::Matmul {
            w: Linear::SsmBeta,
            x: start(Buf::Xn),
            out: start(Buf::GdnBRaw),
            rows,
            m: g.num_v_heads,
            n,
        },
        Op::GdnConv1dChunk { channels: g.conv_dim, kernel_size: g.conv_kernel, chunk_len: rows },
        Op::GdnConv1dChunkStateUpdate {
            channels: g.conv_dim,
            kernel_size: g.conv_kernel,
            chunk_len: rows,
        },
        Op::GdnGateChunk { heads: g.num_v_heads, chunk_len: rows },
    ];
    proof {
        assert(rest@ =~= chunk_conv_ops(config@, rows));
    }
    push_runs(steps, rest.as_slice());
    push_leave(steps, scoped);
    proof {
        assert(steps@ =~= before + chunk_conv_steps(config@, rows, scoped, captured));
    }
}

fn push_out(
    steps: &mut Vec<Step>,
    config: &Qwen35Config,
    rows: u32,
    scoped: bool,
    captured: bool,
)
    requires
        dims_fit(config@, rows as int),
    ensures
        final(steps)@ == old(steps)@ + chunk_gdn_out_steps(config@, rows, scoped, captured),
{
    proof {
        lemma_widths(config@, rows as int);
    }
    let ghost before = steps@;
    let g = config.gdn;
    let hidden: u32 = config.embedding_length;
    let y = start(Buf::GdnY);
    let cost = gdn_out_cost(config, rows);
    push_enter(steps, scoped, OpKind::GdnOut, cost.as_slice());
    let gate: Vec<Op> = vec![
        Op::Rmsnorm {
            x: y,
            weight: Buf::SsmNorm,
            out: y,
            rows: rows * g.num_v_heads,
            cols: g.head_v_dim,
            eps: Eps::Rms,
        },
        Op::SiluMul { gate: start(Buf::GdnZ), up: y, out: y, n: rows * g.value_dim },
    ];
    proof {
        assert(gate@ =~= chunk_gate_ops(config@, rows));
    }
    push_runs(steps, gate.as_slice());
    push_record(steps, captured, Probe::GdnYSilu, Buf::GdnY, rows, g.value_dim);
    let project: Vec<Op> = vec![
        Op::Matmul {
            w: Linear::SsmOut,
            x: y,
            out: start(Buf::GdnOut),
            rows,
            m: hidden,
            n: g.value_dim,
        },
    ];
    proof {
        assert(project@ =~= chunk_ssm_out_op(config@, rows));
    }
    push_runs(steps, project.as_slice());
    push_record(steps, captured, Probe::GdnSsmOutRaw, Buf::GdnOut, rows, hidden);
    let sum: Vec<Op> = vec![
        Op::AddInplace { x: start(Buf::X), y: start(Buf::GdnOut), n: rows * hidden },
    ];
    proof {
        assert(sum@ =~= chunk_gdn_add_op(config@, rows));
    }
    push_runs(steps, sum.as_slice());
    push_leave(steps, scoped);
    proof {
        assert(steps@ =~= before + chunk_gdn_out_steps(config@, rows, scoped, captured));
    }
}

/// Plans one linear-attention layer's step over `chunk_len` tokens.
pub fn gdn_chunk_step(
    steps: &mut Vec<Step>,
    config: &Qwen35Config,
    chunk_len: u32,
    scoped: bool,
    captured: bool,
)
    requires
        dims_fit(config@, chunk_len as int),
    ensures
        final(steps)@ == old(steps)@ + gdn_chunk_steps(config@, chunk_len, scoped, captured),
{
    proof {
        lemma_widths(config@, chunk_len as int);
    }
    let ghost before = steps@;
    push_norm(steps, scoped, config, chunk_len);
    push_record(steps, captured, Probe::GdnXn, Buf::Xn, chunk_len, config.embedding_length);
    push_conv(steps, config, chunk_len, scoped, captured);
    let terms: Vec<Term> = vec![
        Term::GdnChunkwise {
            heads: config.gdn.num_v_heads,
            tile_len: min_u32(chunk_len, GDN_RECUR_TILE),
            head_k_dim: config.gdn.head_k_dim,
            head_v_dim: config.gdn.head_v_dim,
            tiles: max_u32(div_ceil(chunk_len, GDN_RECUR_TILE), 1),
        },
    ];
    proof {
        assert(terms@ =~= chunk_recur_terms(config.gdn, chunk_len));
    }
    let ops = gdn_chunkwise_step(&config.gdn, chunk_len);
    push_scope(steps, scoped, OpKind::GdnRecur, terms.as_slice(), ops.as_slice());
    push_out(steps, config, chunk_len, scoped, captured);
    proof {
        assert(steps@ =~= before + gdn_chunk_steps(config@, chunk_len, scoped, captured));
    }
}

} // verus!
