//! A dense feed-forward part: gated projection, back projection, residual;
//! for one token and for a chunk.

use super::dims::{dims_fit, lemma_widths};
use super::plan::{
    lemma_ops_concat, lemma_ops_record, lemma_ops_runs, lemma_ops_scope, ops_of, push_record,
    push_runs, push_scope, record, runs, scope, start, Buf, Eps, Linear, Op, OpKind, Probe, Step,
    Term,
};
use crate::qwen35::config::{ConfigModel, Qwen35Config};
use vstd::prelude::*;

verus! {

/// Normalises the residual stream of `rows` tokens with a layer's second
/// norm.
pub open spec fn post_norm_ops(c: ConfigModel, rows: u32) -> Seq<Op> {
    seq![
        Op::Rmsnorm {
            x: start(Buf::X),
            weight: Buf::PostAttentionNorm,
            out: start(Buf::Xn),
            rows,
            cols: c.embedding_length,
            eps: Eps::Rms,
        },
    ]
}

/// Gate and up projections of one token.
pub open spec fn gate_up_ops(c: ConfigModel) -> Seq<Op> {
    let m = c.feed_forward_length;
    let n = c.embedding_length;
    seq![
        Op::Matvec { w: Linear::FfnGate, x: start(Buf::Xn), out: start(Buf::FfnGate), m, n },
        Op::Matvec { w: Linear::FfnUp, x: start(Buf::Xn), out: start(Buf::FfnUp), m, n },
        Op::SiluMul {
            gate: start(Buf::FfnGate),
            up: start(Buf::FfnUp),
            out: start(Buf::FfnGate),
            n: m,
        },
    ]
}

/// Back projection of one token.
pub open spec fn down_ops(c: ConfigModel) -> Seq<Op> {
    seq![
        Op::Matvec {
            w: Linear::FfnDown,
            x: start(Buf::FfnGate),
            out: start(Buf::FfnOut),
            m: c.embedding_length,
            n: c.feed_forward_length,
        },
    ]
}

/// Residual of `rows` tokens.
pub open spec fn ffn_add_ops(c: ConfigModel, rows: u32) -> Seq<Op> {
    seq![
        Op::AddInplace {
            x: start(Buf::X),
            y: start(Buf::FfnOut),
            n: (rows * c.embedding_length) as u32,
        },
    ]
}

/// The cost of normalising `rows` rows.
pub open spec fn post_norm_terms(c: ConfigModel, rows: u32) -> Seq<Term> {
    seq![Term::Norm { rows, cols: c.embedding_length }]
}

/// The cost of gate and up projections of `rows` tokens.
pub open spec fn gate_up_terms(c: ConfigModel, rows: u32) -> Seq<Term> {
    seq![
        Term::Project {
            w: Linear::FfnGate,
            m: c.feed_forward_length,
            n: c.embedding_length,
            rows,
        },
        Term::Project { w: Linear::FfnUp, m: c.feed_forward_length, n: c.embedding_length, rows },
    ]
}

/// The cost of the back projection of `rows` tokens.
pub open spec fn down_terms(c: ConfigModel, rows: u32) -> Seq<Term> {
    seq![
        Term::Project {
            w: Linear::FfnDown,
            m: c.embedding_length,
            n: c.feed_forward_length,
            rows,
        },
    ]
}

/// The decode step.
pub open spec fn ffn_steps(c: ConfigModel, scoped: bool) -> Seq<Step> {
    scope(scoped, OpKind::Norm, post_norm_terms(c, 1), post_norm_ops(c, 1)) + scope(
        scoped,
        OpKind::FfnGateUp,
        gate_up_terms(c, 1),
        gate_up_ops(c),
    ) + scope(scoped, OpKind::FfnDown, down_terms(c, 1), down_ops(c)) + runs(ffn_add_ops(c, 1))
}

/// What the device does in the decode step.
pub open spec fn ffn_ops(c: ConfigModel) -> Seq<Op> {
    post_norm_ops(c, 1) + gate_up_ops(c) + down_ops(c) + ffn_add_ops(c, 1)
}

/// The cost of the whole decode step, for a scope that covers a layer.
pub open spec fn ffn_cost(c: ConfigModel) -> Seq<Term> {
    post_norm_terms(c, 1) + gate_up_terms(c, 1) + down_terms(c, 1)
}

/// Gate and up projections of a chunk.
pub open spec fn chunk_gate_up_ops(c: ConfigModel, rows: u32) -> Seq<Op> {
    let m = c.feed_forward_length;
    let n = c.embedding_length;
    seq![
        Op::Matmul {
            w: Linear::FfnGate,
            x: start(Buf::Xn),
            out: start(Buf::FfnGate),
            rows,
            m,
            n,
        },
        Op::Matmul { w: Linear::FfnUp, x: start(Buf::Xn), out: start(Buf::FfnUp), rows, m, n },
        Op::SiluMul {
            gate: start(Buf::FfnGate),
            up: start(Buf::FfnUp),
            out: start(Buf::FfnGate),
            n: (rows * m) as u32,
        },
    ]
}

/// Back projection of a chunk.
pub open spec fn chunk_down_ops(c: ConfigModel, rows: u32) -> Seq<Op> {
    seq![
        Op::Matmul {
            w: Linear::FfnDown,
            x: start(Buf::FfnGate),
            out: start(Buf::FfnOut),
            rows,
            m: c.embedding_length,
            n: c.feed_forward_length,
        },
    ]
}

/// The step over a chunk.
pub open spec fn ffn_chunk_steps(c: ConfigModel, rows: u32, scoped: bool, captured: bool) -> Seq<
    Step,
> {
    let hidden = c.embedding_length;
    record(captured, Probe::ResidPreFfn, Buf::X, rows, hidden) + scope(
        scoped,
        OpKind::Norm,
        post_norm_terms(c, rows),
        post_norm_ops(c, rows),
    ) + record(captured, Probe::FfnXn, Buf::Xn, rows, hidden) + scope(
        scoped,
        OpKind::FfnGateUp,
        gate_up_terms(c, rows),
        chunk_gate_up_ops(c, rows),
    ) + record(captured, Probe::FfnGateSilu, Buf::FfnGate, rows, c.feed_forward_length) + scope(
        scoped,
        OpKind::FfnDown,
        down_terms(c, rows),
        chunk_down_ops(c, rows),
    ) + record(captured, Probe::FfnDownOut, Buf::FfnOut, rows, hidden) + runs(
        ffn_add_ops(c, rows),
    )
}

/// What the device does over a chunk.
pub open spec fn ffn_chunk_ops(c: ConfigModel, rows: u32) -> Seq<Op> {
    post_norm_ops(c, rows) + chunk_gate_up_ops(c, rows) + chunk_down_ops(c, rows) + ffn_add_ops(
        c,
        rows,
    )
}

/// Profiling changes nothing about what the device does.
pub proof fn lemma_ffn_ops(c: ConfigModel, scoped: bool)
    ensures
        ops_of(ffn_steps(c, scoped)) == ffn_ops(c),
{
    let s1 = scope(scoped, OpKind::Norm, post_norm_terms(c, 1), post_norm_ops(c, 1));
    let s2 = scope(scoped, OpKind::FfnGateUp, gate_up_terms(c, 1), gate_up_ops(c));
    let s3 = scope(scoped, OpKind::FfnDown, down_terms(c, 1), down_ops(c));
    lemma_ops_scope(scoped, OpKind::Norm, post_norm_terms(c, 1), post_norm_ops(c, 1));
    lemma_ops_scope(scoped, OpKind::FfnGateUp, gate_up_terms(c, 1), gate_up_ops(c));
    lemma_ops_scope(scoped, OpKind::FfnDown, down_terms(c, 1), down_ops(c));
    lemma_ops_runs(ffn_add_ops(c, 1));
    lemma_ops_concat(s1, s2);
    lemma_ops_concat(s1 + s2, s3);
    lemma_ops_concat(s1 + s2 + s3, runs(ffn_add_ops(c, 1)));
}

/// Neither profiling nor recording changes what the device does.
pub proof fn lemma_ffn_chunk_ops(c: ConfigModel, rows: u32, scoped: bool, captured: bool)
    ensures
        ops_of(ffn_chunk_steps(c, rows, scoped, captured)) == ffn_chunk_ops(c, rows),
{
    let hidden = c.embedding_length;
    let e = Seq::<Op>::empty();
    let r0 = record(captured, Probe::ResidPreFfn, Buf::X, rows, hidden);
    let s1 = scope(scoped, OpKind::Norm, post_norm_terms(c, rows), post_norm_ops(c, rows));
    let r1 = record(captured, Probe::FfnXn, Buf::Xn, rows, hidden);
    let s2 = scope(scoped, OpKind::FfnGateUp, gate_up_terms(c, rows), chunk_gate_up_ops(c, rows));
    let r2 = record(captured, Probe::FfnGateSilu, Buf::FfnGate, rows, c.feed_forward_length);
    let s3 = scope(scoped, OpKind::FfnDown, down_terms(c, rows), chunk_down_ops(c, rows));
    let r3 = record(captured, Probe::FfnDownOut, Buf::FfnOut, rows, hidden);
    lemma_ops_record(captured, Probe::ResidPreFfn, Buf::X, rows, hidden);
    lemma_ops_record(captured, Probe::FfnXn, Buf::Xn, rows, hidden);
    lemma_ops_record(captured, Probe::FfnGateSilu, Buf::FfnGate, rows, c.feed_forward_length);
    lemma_ops_record(captured, Probe::FfnDownOut, Buf::FfnOut, rows, hidden);
    lemma_ops_scope(scoped, OpKind::Norm, post_norm_terms(c, rows), post_norm_ops(c, rows));
    lemma_ops_scope(scoped, OpKind::FfnGateUp, gate_up_terms(c, rows), chunk_gate_up_ops(c, rows));
    lemma_ops_scope(scoped, OpKind::FfnDown, down_terms(c, rows), chunk_down_ops(c, rows));
    lemma_ops_runs(ffn_add_ops(c, rows));
    lemma_ops_concat(r0, s1);
    lemma_ops_concat(r0 + s1, r1);
    lemma_ops_concat(r0 + s1 + r1, s2);
    lemma_ops_concat(r0 + s1 + r1 + s2, r2);
    lemma_ops_concat(r0 + s1 + r1 + s2 + r2, s3);
    lemma_ops_concat(r0 + s1 + r1 + s2 + r2 + s3, r3);
    lemma_ops_concat(r0 + s1 + r1 + s2 + r2 + s3 + r3, runs(ffn_add_ops(c, rows)));
    let o1 = post_norm_ops(c, rows);
    let o2 = chunk_gate_up_ops(c, rows);
    let o3 = chunk_down_ops(c, rows);
    assert(e + o1 + e =~= o1);
    assert(o1 + o2 + e =~= o1 + o2);
    assert(o1 + o2 + o3 + e =~= o1 + o2 + o3);
}

fn push_post_norm(steps: &mut Vec<Step>, scoped: bool, config: &Qwen35Config, rows: u32)
    ensures
        final(steps)@ == old(steps)@ + scope(
            scoped,
            OpKind::Norm,
            post_norm_terms(config@, rows),
            post_norm_ops(config@, rows),
        ),
{
    let hidden: u32 = config.embedding_length;
    let terms: Vec<Term> = vec![Term::Norm { rows, cols: hidden }];
    let ops: Vec<Op> = vec![
        Op::Rmsnorm {
            x: start(Buf::X),
            weight: Buf::PostAttentionNorm,
            out: start(Buf::Xn),
            rows,
            cols: hidden,
            eps: Eps::Rms,
        },
    ];
    proof {
        assert(terms@ =~= post_norm_terms(config@, rows));
        assert(ops@ =~= post_norm_ops(config@, rows));
    }
    push_scope(steps, scoped, OpKind::Norm, terms.as_slice(), ops.as_slice());
}

fn gate_up_cost(config: &Qwen35Config, rows: u32) -> (r: Vec<Term>)
    ensures
        r@ == gate_up_terms(config@, rows),
{
    let (m, n): (u32, u32) = (config.feed_forward_length, config.embedding_length);
    let terms: Vec<Term> = vec![
        Term::Project { w: Linear::FfnGate, m, n, rows },
        Term::Project { w: Linear::FfnUp, m, n, rows },
    ];
    proof {
        assert(terms@ =~= gate_up_terms(config@, rows));
    }
    terms
}

fn down_cost(config: &Qwen35Config, rows: u32) -> (r: Vec<Term>)
    ensures
        r@ == down_terms(config@, rows),
{
    let terms: Vec<Term> = vec![
        Term::Project {
            w: Linear::FfnDown,
            m: config.embedding_length,
            n: config.feed_forward_length,
            rows,
        },
    ];
    proof {
        assert(terms@ =~= down_terms(config@, rows));
    }
    terms
}

/// Plans a dense feed-forward part for one token.
pub fn ffn_step(steps: &mut Vec<Step>, config: &Qwen35Config, scoped: bool)
    ensures
        final(steps)@ == old(steps)@ + ffn_steps(config@, scoped),
{
    let ghost before = steps@;
    let (m, n): (u32, u32) = (config.feed_forward_length, config.embedding_length);
    push_post_norm(steps, scoped, config, 1);
    let up_cost = gate_up_cost(config, 1);
    let up: Vec<Op> = vec![
        Op::Matvec { w: Linear::FfnGate, x: start(Buf::Xn), out: start(Buf::FfnGate), m, n },
        Op::Matvec { w: Linear::FfnUp, x: start(Buf::Xn), out: start(Buf::FfnUp), m, n },
        Op::SiluMul {
            gate: start(Buf::FfnGate),
            up: start(Buf::FfnUp),
            out: start(Buf::FfnGate),
            n: m,
        },
    ];
    let back_cost = down_cost(config, 1);
    let back: Vec<Op> = vec![
        Op::Matvec {
            w: Linear::FfnDown,
            x: start(Buf::FfnGate),
            out: start(Buf::FfnOut),
            m: n,
            n: m,
        },
    ];
    let sum: Vec<Op> = vec![Op::AddInplace { x: start(Buf::X), y: start(Buf::FfnOut), n }];
    proof {
        assert(up@ =~= gate_up_ops(config@));
        assert(back@ =~= down_ops(config@));
        assert(sum@ =~= ffn_add_ops(config@, 1));
    }
    push_scope(steps, scoped, OpKind::FfnGateUp, up_cost.as_slice(), up.as_slice());
    push_scope(steps, scoped, OpKind::FfnDown, back_cost.as_slice(), back.as_slice());
    push_runs(steps, sum.as_slice());
    proof {
        assert(steps@ =~= before + ffn_steps(config@, scoped));
    }
}

/// The cost of a dense feed-forward part for one token.
pub fn ffn_step_cost(config: &Qwen35Config) -> (r: Vec<Term>)
    ensures
        r@ == ffn_cost(config@),
{
    let mut terms: Vec<Term> = vec![Term::Norm { rows: 1, cols: config.embedding_length }];
    let mut up = gate_up_cost(config, 1);
    let mut down = down_cost(config, 1);
    terms.append(&mut up);
    terms.append(&mut down);
    proof {
        assert(terms@ =~= ffn_cost(config@));
    }
    terms
}

/// Plans a dense feed-forward part for a chunk.
pub fn ffn_chunk_step(
    steps: &mut Vec<Step>,
    config: &Qwen35Config,
    chunk_len: u32,
    scoped: bool,
    captured: bool,
)
    requires
        dims_fit(config@, chunk_len as int),
    ensures
        final(steps)@ == old(steps)@ + ffn_chunk_steps(config@, chunk_len, scoped, captured),
{
    proof {
        lemma_widths(config@, chunk_len as int);
    }
    let ghost before = steps@;
    let rows: u32 = chunk_len;
    let (m, n): (u32, u32) = (config.feed_forward_length, config.embedding_length);
    push_record(steps, captured, Probe::ResidPreFfn, Buf::X, rows, n);
    push_post_norm(steps, scoped, config, rows);
    push_record(steps, captured, Probe::FfnXn, Buf::Xn, rows, n);
    let up_cost = gate_up_cost(config, rows);
    let up: Vec<Op> = vec![
        Op::Matmul {
            w: Linear::FfnGate,
            x: start(Buf::Xn),
            out: start(Buf::FfnGate),
            rows,
            m,
            n,
        },
        Op::Matmul { w: Linear::FfnUp, x: start(Buf::Xn), out: start(Buf::FfnUp), rows, m, n },
        Op::SiluMul {
            gate: start(Buf::FfnGate),
            up: start(Buf::FfnUp),
            out: start(Buf::FfnGate),
            n: rows * m,
        },
    ];
    let back_cost = down_cost(config, rows);
    let back: Vec<Op> = vec![
        Op::Matmul {
            w: Linear::FfnDown,
            x: start(Buf::FfnGate),
            out: start(Buf::FfnOut),
            rows,
            m: n,
            n: m,
        },
    ];
    let sum: Vec<Op> = vec![
        Op::AddInplace { x: start(Buf::X), y: start(Buf::FfnOut), n: rows * n },
    ];
    proof {
        assert(up@ =~= chunk_gate_up_ops(config@, rows));
        assert(back@ =~= chunk_down_ops(config@, rows));
        assert(sum@ =~= ffn_add_ops(config@, rows));
    }
    push_scope(steps, scoped, OpKind::FfnGateUp, up_cost.as_slice(), up.as_slice());
    push_record(steps, captured, Probe::FfnGateSilu, Buf::FfnGate, rows, m);
    push_scope(steps, scoped, OpKind::FfnDown, back_cost.as_slice(), back.as_slice());
    push_record(steps, captured, Probe::FfnDownOut, Buf::FfnOut, rows, n);
    push_runs(steps, sum.as_slice());
    proof {
        assert(steps@ =~= before + ffn_chunk_steps(config@, chunk_len, scoped, captured));
    }
}

} // verus!
