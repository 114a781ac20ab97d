//! What a diagnostic run records of a chunk is what the records are called.

use super::attention::lemma_keeps_all;
use super::ffn::gated;
use super::gdn::{conv_input, law_chunk_convolves_every_row, out_gate};
use super::heads::{each_head, head, lemma_normed_heads};
use super::qkv::attn_input;
use super::recur::{consistent, lemma_tiles_change};
use super::{
    after, done, lemma_in_turn, lemma_keeps, lemma_matmul_row, lemma_norm_row, lemma_one,
    lemma_row_inside, lemma_silu_row, lemma_three, lemma_two, normed, projected, residual, row,
    zipped, Held, Machine,
};
use crate::qwen35::forward::attention::{norm_ops, norm_terms};
use crate::qwen35::forward::gdn::{conv_terms, gdn_out_terms};
use crate::qwen35::forward::gdn_chunk::{
    chunk_conv_ops, chunk_conv_steps, chunk_gate_ops, chunk_gdn_add_op, chunk_gdn_out_steps,
    chunk_qkv_op, chunk_recur_terms, chunk_ssm_out_op, gdn_chunk_steps, lemma_conv_ops,
    lemma_out_ops,
};
use crate::qwen35::forward::gdn_chunkwise::{chunkwise_ops, tile_count};
use crate::qwen35::config::ConfigModel;
use crate::qwen35::forward::dims::{dims_fit, lemma_widths};
use crate::qwen35::forward::ffn::{
    chunk_down_ops, chunk_gate_up_ops, down_terms, ffn_add_ops, ffn_chunk_steps, gate_up_terms,
    post_norm_ops, post_norm_terms,
};
use crate::qwen35::forward::layer::{ffn_open, layer_close, PassParams};
use crate::qwen35::forward::moe::moe_route_ops;
use crate::qwen35::forward::plan::{
    costs, lemma_ops_concat, lemma_ops_none, lemma_ops_record, lemma_ops_runs, lemma_ops_scope,
    ops_of, record, runs, scope, scope_of, start, At, Buf, Eps, Linear, Op, OpKind, Probe, Step, Term,
};
use crate::qwen35::moe::tensor::MoeFfnWeights;
use crate::qwen35::weights::Ffn;
use vstd::prelude::*;

verus! {

/// What is recorded of one row: the record's name, how many rows it has, and
/// the row.
#[verifier::reject_recursive_types(T)]
pub struct Noted<T> {
    pub probe: Probe,
    pub rows: u32,
    pub row: Seq<T>,
}

/// What these steps record of a row, in order: each record holds what is in
/// the buffer when it is made.
pub open spec fn noted<T>(k: Machine<T>, h: Held<T>, steps: Seq<Step>, r: int) -> Seq<Noted<T>>
    decreases steps.len(),
{
    if steps.len() == 0 {
        Seq::empty()
    } else {
        let less = steps.drop_last();
        let before = noted(k, h, less, r);
        match steps.last() {
            Step::Record { probe, buf, rows, cols } => before.push(
                Noted {
                    probe,
                    rows,
                    row: row(done(k, h, ops_of(less)).mem, buf, r * cols, cols as int),
                },
            ),
            _ => before,
        }
    }
}

proof fn lemma_noted_in_turn<T>(k: Machine<T>, h: Held<T>, a: Seq<Step>, b: Seq<Step>, r: int)
    ensures
        noted(k, h, a + b, r) == noted(k, h, a, r) + noted(k, done(k, h, ops_of(a)), b, r),
    decreases b.len(),
{
    if b.len() == 0 {
        assert(a + b =~= a);
        assert(noted(k, h, a + b, r) =~= noted(k, h, a, r) + noted(
            k,
            done(k, h, ops_of(a)),
            b,
            r,
        ));
    } else {
        let less = b.drop_last();
        lemma_noted_in_turn(k, h, a, less, r);
        assert((a + b).drop_last() =~= a + less);
        assert((a + b).last() == b.last());
        lemma_ops_concat(a, less);
        lemma_in_turn(k, h, ops_of(a), ops_of(less));
        assert(noted(k, h, a + b, r) =~= noted(k, h, a, r) + noted(
            k,
            done(k, h, ops_of(a)),
            b,
            r,
        ));
    }
}

proof fn lemma_none_noted<T>(k: Machine<T>, h: Held<T>, steps: Seq<Step>, r: int)
    requires
        forall|i: int| 0 <= i < steps.len() ==> !((#[trigger] steps[i]) is Record),
    ensures
        noted(k, h, steps, r) == Seq::<Noted<T>>::empty(),
    decreases steps.len(),
{
    if steps.len() > 0 {
        let less = steps.drop_last();
        assert forall|i: int| 0 <= i < less.len() implies !((#[trigger] less[i]) is Record) by {
            assert(less[i] == steps[i]);
        }
        lemma_none_noted(k, h, less, r);
        assert(!(steps[steps.len() - 1] is Record));
    }
}

/// A record, then steps that record nothing.
proof fn lemma_noted_then<T>(
    k: Machine<T>,
    h: Held<T>,
    probe: Probe,
    buf: Buf,
    rows: u32,
    cols: u32,
    rest: Seq<Step>,
    ops: Seq<Op>,
    r: int,
)
    requires
        forall|i: int| 0 <= i < rest.len() ==> !((#[trigger] rest[i]) is Record),
        ops_of(rest) == ops,
    ensures
        ({
            let steps = record(true, probe, buf, rows, cols) + rest;
            &&& ops_of(steps) == ops
            &&& noted(k, h, steps, r) == seq![
                Noted { probe, rows, row: row(h.mem, buf, r * cols, cols as int) },
            ]
        }),
{
    let first = record(true, probe, buf, rows, cols);
    lemma_ops_record(true, probe, buf, rows, cols);
    lemma_ops_concat(first, rest);
    assert(Seq::<Op>::empty() + ops =~= ops);
    lemma_noted_in_turn(k, h, first, rest, r);
    assert(first.drop_last() =~= Seq::<Step>::empty());
    reveal_with_fuel(noted, 2);
    assert(noted(k, h, first, r) =~= seq![
        Noted { probe, rows, row: row(h.mem, buf, r * cols, cols as int) },
    ]);
    lemma_none_noted(k, done(k, h, ops_of(first)), rest, r);
    assert(noted(k, h, first + rest, r) =~= noted(k, h, first, r));
}

/// A dense feed-forward part records the residual it starts from, its input,
/// what its gate lets through, and its output, each of every row.
pub proof fn law_feed_forward_records_what_it_computes<T>(
    k: Machine<T>,
    h: Held<T>,
    c: ConfigModel,
    rows: u32,
    scoped: bool,
    r: int,
)
    requires
        dims_fit(c, rows as int),
        0 <= r < rows,
    ensures
        ({
            let x = residual(h, c.embedding_length, r);
            let xn = normed(k, Buf::PostAttentionNorm, Eps::Rms, x);
            let ff = c.feed_forward_length as int;
            noted(k, h, ffn_chunk_steps(c, rows, scoped, true), r) == seq![
                Noted { probe: Probe::ResidPreFfn, rows, row: x },
                Noted { probe: Probe::FfnXn, rows, row: xn },
                Noted {
                    probe: Probe::FfnGateSilu,
                    rows,
                    row: zipped(
                        k.silu_mul,
                        projected(k, Linear::FfnGate, ff, xn),
                        projected(k, Linear::FfnUp, ff, xn),
                    ),
                },
                Noted { probe: Probe::FfnDownOut, rows, row: gated(k, c, xn) },
            ]
        }),
{
    broadcast use lemma_keeps;

    lemma_widths(c, rows as int);
    let (hidden, ff) = (c.embedding_length, c.feed_forward_length);
    lemma_row_inside(r, rows as int, hidden as int);
    lemma_row_inside(r, rows as int, ff as int);
    let (a, b) = (post_norm_ops(c, rows), chunk_gate_up_ops(c, rows));
    let (d, e) = (chunk_down_ops(c, rows), ffn_add_ops(c, rows));
    let sa = scope(scoped, OpKind::Norm, post_norm_terms(c, rows), a);
    let sb = scope(scoped, OpKind::FfnGateUp, gate_up_terms(c, rows), b);
    let sd = scope(scoped, OpKind::FfnDown, down_terms(c, rows), d);
    let se = runs(e);
    lemma_ops_scope(scoped, OpKind::Norm, post_norm_terms(c, rows), a);
    lemma_ops_scope(scoped, OpKind::FfnGateUp, gate_up_terms(c, rows), b);
    lemma_ops_scope(scoped, OpKind::FfnDown, down_terms(c, rows), d);
    lemma_ops_runs(e);
    let h1 = done(k, h, a);
    let h4 = done(k, h1, b);
    let h5 = done(k, h4, d);
    lemma_one(k, h, a);
    lemma_three(k, h1, b);
    lemma_one(k, h4, d);
    lemma_noted_then(k, h, Probe::ResidPreFfn, Buf::X, rows, hidden, sa, a, r);
    lemma_noted_then(k, h1, Probe::FfnXn, Buf::Xn, rows, hidden, sb, b, r);
    lemma_noted_then(k, h4, Probe::FfnGateSilu, Buf::FfnGate, rows, ff, sd, d, r);
    lemma_noted_then(k, h5, Probe::FfnDownOut, Buf::FfnOut, rows, hidden, se, e, r);
    let p1 = record(true, Probe::ResidPreFfn, Buf::X, rows, hidden) + sa;
    let p2 = record(true, Probe::FfnXn, Buf::Xn, rows, hidden) + sb;
    let p3 = record(true, Probe::FfnGateSilu, Buf::FfnGate, rows, ff) + sd;
    let p4 = record(true, Probe::FfnDownOut, Buf::FfnOut, rows, hidden) + se;
    assert(ffn_chunk_steps(c, rows, scoped, true) =~= p1 + p2 + p3 + p4);
    lemma_noted_in_turn(k, h, p1 + p2 + p3, p4, r);
    lemma_noted_in_turn(k, h, p1 + p2, p3, r);
    lemma_noted_in_turn(k, h, p1, p2, r);
    lemma_ops_concat(p1 + p2, p3);
    lemma_ops_concat(p1, p2);
    lemma_in_turn(k, h, a + b, d);
    lemma_in_turn(k, h, a, b);
    let norm = Buf::PostAttentionNorm;
    lemma_norm_row(k, h, start(Buf::X), norm, start(Buf::Xn), rows, hidden, Eps::Rms, r);
    let (g, u) = (start(Buf::FfnGate), start(Buf::FfnUp));
    lemma_matmul_row(k, h1, Linear::FfnGate, start(Buf::Xn), g, rows, ff, hidden, r);
    let h2 = after(k, h1, b[0]);
    lemma_matmul_row(k, h2, Linear::FfnUp, start(Buf::Xn), u, rows, ff, hidden, r);
    let h3 = after(k, h2, b[1]);
    lemma_silu_row(k, h3, g, u, g, (rows * ff) as u32, r * ff, ff as int);
    lemma_matmul_row(k, h4, Linear::FfnDown, g, start(Buf::FfnOut), rows, hidden, ff, r);
    let x = residual(h, hidden, r);
    let xn = normed(k, Buf::PostAttentionNorm, Eps::Rms, x);
    assert(noted(k, h, ffn_chunk_steps(c, rows, scoped, true), r) =~= seq![
        Noted { probe: Probe::ResidPreFfn, rows, row: x },
        Noted { probe: Probe::FfnXn, rows, row: xn },
        Noted {
            probe: Probe::FfnGateSilu,
            rows,
            row: zipped(
                k.silu_mul,
                projected(k, Linear::FfnGate, ff as int, xn),
                projected(k, Linear::FfnUp, ff as int, xn),
            ),
        },
        Noted { probe: Probe::FfnDownOut, rows, row: gated(k, c, xn) },
    ]);
}

/// Only what is inside a scope is recorded.
proof fn lemma_noted_scope_of<T>(
    k: Machine<T>,
    h: Held<T>,
    scoped: bool,
    kind: OpKind,
    terms: Seq<Term>,
    body: Seq<Step>,
    r: int,
)
    ensures
        noted(k, h, scope_of(scoped, kind, terms, body), r) == noted(k, h, body, r),
{
    if scoped {
        let first = seq![Step::Enter { kind }] + costs(terms);
        let last = seq![Step::Leave];
        lemma_noted_in_turn(k, h, first + body, last, r);
        lemma_noted_in_turn(k, h, first, body, r);
        lemma_none_noted(k, h, first, r);
        lemma_none_noted(k, done(k, h, ops_of(first + body)), last, r);
        lemma_ops_none(first);
        assert(done(k, h, ops_of(first)) == h);
        assert(noted(k, h, first, r) + noted(k, h, body, r) =~= noted(k, h, body, r));
        assert(noted(k, h, scope_of(scoped, kind, terms, body), r) =~= noted(k, h, body, r));
    }
}

/// Operations, then a record of what they left.
proof fn lemma_noted_after<T>(
    k: Machine<T>,
    h: Held<T>,
    before: Seq<Step>,
    ops: Seq<Op>,
    probe: Probe,
    buf: Buf,
    rows: u32,
    cols: u32,
    r: int,
)
    requires
        forall|i: int| 0 <= i < before.len() ==> !((#[trigger] before[i]) is Record),
        ops_of(before) == ops,
    ensures
        ({
            let steps = before + record(true, probe, buf, rows, cols);
            &&& ops_of(steps) == ops
            &&& noted(k, h, steps, r) == seq![
                Noted { probe, rows, row: row(done(k, h, ops).mem, buf, r * cols, cols as int) },
            ]
        }),
{
    let last = record(true, probe, buf, rows, cols);
    lemma_ops_record(true, probe, buf, rows, cols);
    lemma_ops_concat(before, last);
    assert(ops + Seq::<Op>::empty() =~= ops);
    lemma_noted_in_turn(k, h, before, last, r);
    lemma_none_noted(k, h, before, r);
    assert(last.drop_last() =~= Seq::<Step>::empty());
    reveal_with_fuel(noted, 2);
    assert(noted(k, h, before + last, r) =~= seq![
        Noted { probe, rows, row: row(done(k, h, ops).mem, buf, r * cols, cols as int) },
    ]);
}

/// What the convolution's steps record.
proof fn lemma_noted_conv<T>(
    k: Machine<T>,
    h: Held<T>,
    c: ConfigModel,
    rows: u32,
    scoped: bool,
    r: int,
)
    ensures
        ({
            let w = c.gdn.conv_dim;
            noted(k, h, chunk_conv_steps(c, rows, scoped, true), r) == seq![
                Noted {
                    probe: Probe::GdnQkvRaw,
                    rows,
                    row: row(
                        done(k, h, chunk_qkv_op(c, rows)).mem,
                        Buf::GdnQkv,
                        r * w,
                        w as int,
                    ),
                },
            ]
        }),
{
    let w = c.gdn.conv_dim;
    let (b1, b2) = (chunk_qkv_op(c, rows), chunk_conv_ops(c, rows));
    lemma_ops_runs(b1);
    lemma_noted_after(k, h, runs(b1), b1, Probe::GdnQkvRaw, Buf::GdnQkv, rows, w, r);
    let q = runs(b1) + record(true, Probe::GdnQkvRaw, Buf::GdnQkv, rows, w);
    lemma_noted_in_turn(k, h, q, runs(b2), r);
    lemma_none_noted(k, done(k, h, ops_of(q)), runs(b2), r);
    lemma_noted_scope_of(k, h, scoped, OpKind::GdnConv, conv_terms(c, rows), q + runs(b2), r);
    assert(noted(k, h, q + runs(b2), r) =~= noted(k, h, q, r));
}

/// What the output's steps record.
proof fn lemma_noted_out<T>(
    k: Machine<T>,
    h: Held<T>,
    c: ConfigModel,
    rows: u32,
    scoped: bool,
    r: int,
)
    ensures
        ({
            let (v, n) = (c.gdn.value_dim, c.embedding_length);
            let t = done(k, h, chunk_gate_ops(c, rows));
            let u = done(k, t, chunk_ssm_out_op(c, rows));
            noted(k, h, chunk_gdn_out_steps(c, rows, scoped, true), r) == seq![
                Noted {
                    probe: Probe::GdnYSilu,
                    rows,
                    row: row(t.mem, Buf::GdnY, r * v, v as int),
                },
                Noted {
                    probe: Probe::GdnSsmOutRaw,
                    rows,
                    row: row(u.mem, Buf::GdnOut, r * n, n as int),
                },
            ]
        }),
{
    let (v, n) = (c.gdn.value_dim, c.embedding_length);
    let (d1, d2) = (chunk_gate_ops(c, rows), chunk_ssm_out_op(c, rows));
    let d3 = chunk_gdn_add_op(c, rows);
    let t = done(k, h, d1);
    lemma_ops_runs(d1);
    lemma_ops_runs(d2);
    lemma_noted_after(k, h, runs(d1), d1, Probe::GdnYSilu, Buf::GdnY, rows, v, r);
    lemma_noted_after(k, t, runs(d2), d2, Probe::GdnSsmOutRaw, Buf::GdnOut, rows, n, r);
    let r1 = record(true, Probe::GdnYSilu, Buf::GdnY, rows, v);
    let r2 = record(true, Probe::GdnSsmOutRaw, Buf::GdnOut, rows, n);
    let o1 = runs(d1) + r1;
    let o2 = runs(d2) + r2;
    let body = runs(d1) + r1 + runs(d2) + r2 + runs(d3);
    assert(body =~= o1 + o2 + runs(d3));
    lemma_noted_in_turn(k, h, o1 + o2, runs(d3), r);
    lemma_noted_in_turn(k, h, o1, o2, r);
    lemma_none_noted(k, done(k, h, ops_of(o1 + o2)), runs(d3), r);
    lemma_noted_scope_of(k, h, scoped, OpKind::GdnOut, gdn_out_terms(c, rows), body, r);
    assert(noted(k, h, body, r) =~= noted(k, h, o1, r) + noted(k, t, o2, r));
}

/// The readout of a row, head by head normalised and gated.
pub open spec fn gated_readout<T>(k: Machine<T>, c: ConfigModel, y: Seq<T>, x: Seq<T>) -> Seq<T> {
    let hd = c.gdn.head_v_dim as int;
    zipped(
        k.silu_mul,
        out_gate(k, c, x),
        each_head(
            c.gdn.num_v_heads as int,
            hd,
            |n: int| normed(k, Buf::SsmNorm, Eps::Rms, head(y, hd, n)),
        ),
    )
}

/// What a linear-attention layer does to a chunk before it reads the state
/// out.
pub open spec fn until_readout(c: ConfigModel, rows: u32) -> Seq<Op> {
    norm_ops(c, rows) + (chunk_qkv_op(c, rows) + chunk_conv_ops(c, rows)) + chunkwise_ops(
        c.gdn,
        rows as int,
    )
}

/// A linear-attention layer records its input, the convolution's input, the
/// gated readout and its output, each of every row.
pub proof fn law_linear_attention_records_what_it_computes<T>(
    k: Machine<T>,
    h: Held<T>,
    c: ConfigModel,
    rows: u32,
    scoped: bool,
    r: int,
)
    requires
        dims_fit(c, rows as int),
        consistent(c.gdn),
        0 <= r < rows,
    ensures
        ({
            let x = residual(h, c.embedding_length, r);
            let v = c.gdn.value_dim as int;
            let y = row(done(k, h, until_readout(c, rows)).mem, Buf::GdnY, r * v, v);
            let gated = gated_readout(k, c, y, x);
            noted(k, h, gdn_chunk_steps(c, rows, scoped, true), r) == seq![
                Noted { probe: Probe::GdnXn, rows, row: attn_input(k, x) },
                Noted { probe: Probe::GdnQkvRaw, rows, row: conv_input(k, c, x) },
                Noted { probe: Probe::GdnYSilu, rows, row: gated },
                Noted {
                    probe: Probe::GdnSsmOutRaw,
                    rows,
                    row: projected(k, Linear::SsmOut, c.embedding_length as int, gated),
                },
            ]
        }),
{
    let g = c.gdn;
    let hidden = c.embedding_length;
    let (n, v) = (rows as int, g.value_dim as int);
    let (a, b1, b2) = (norm_ops(c, rows), chunk_qkv_op(c, rows), chunk_conv_ops(c, rows));
    let w = chunkwise_ops(g, n);
    let s1 = scope(scoped, OpKind::Norm, norm_terms(c, rows), a);
    let r1 = record(true, Probe::GdnXn, Buf::Xn, rows, hidden);
    let s2 = chunk_conv_steps(c, rows, scoped, true);
    let s3 = scope(scoped, OpKind::GdnRecur, chunk_recur_terms(g, rows), w);
    let s4 = chunk_gdn_out_steps(c, rows, scoped, true);
    lemma_ops_scope(scoped, OpKind::Norm, norm_terms(c, rows), a);
    lemma_ops_scope(scoped, OpKind::GdnRecur, chunk_recur_terms(g, rows), w);
    lemma_conv_ops(c, rows, scoped, true);
    lemma_out_ops(c, rows, scoped, true);
    let h1 = done(k, h, a);
    let h3 = done(k, h1, b1 + b2);
    let h4 = done(k, h3, w);
    lemma_noted_after(k, h, s1, a, Probe::GdnXn, Buf::Xn, rows, hidden, r);
    lemma_noted_conv(k, h1, c, rows, scoped, r);
    lemma_none_noted(k, h3, s3, r);
    lemma_noted_out(k, h4, c, rows, scoped, r);
    let p1 = s1 + r1;
    let steps = gdn_chunk_steps(c, rows, scoped, true);
    assert(steps =~= p1 + s2 + s3 + s4);
    lemma_noted_in_turn(k, h, p1 + s2 + s3, s4, r);
    lemma_noted_in_turn(k, h, p1 + s2, s3, r);
    lemma_noted_in_turn(k, h, p1, s2, r);
    lemma_ops_concat(p1 + s2, s3);
    lemma_ops_concat(p1, s2);
    lemma_in_turn(k, h, a + (b1 + b2), w);
    lemma_in_turn(k, h, a, b1 + b2);
    lemma_recorded_rows(k, h, c, rows, r);
    let x = residual(h, hidden, r);
    let y = row(h4.mem, Buf::GdnY, r * v, v);
    let gated = gated_readout(k, c, y, x);
    assert(noted(k, h, steps, r) =~= seq![
        Noted { probe: Probe::GdnXn, rows, row: attn_input(k, x) },
        Noted { probe: Probe::GdnQkvRaw, rows, row: conv_input(k, c, x) },
        Noted { probe: Probe::GdnYSilu, rows, row: gated },
        Noted {
            probe: Probe::GdnSsmOutRaw,
            rows,
            row: projected(k, Linear::SsmOut, hidden as int, gated),
        },
    ]);
}

/// What is in the buffers when the records are made.
proof fn lemma_recorded_rows<T>(k: Machine<T>, h: Held<T>, c: ConfigModel, rows: u32, r: int)
    requires
        dims_fit(c, rows as int),
        consistent(c.gdn),
        0 <= r < rows,
    ensures
        ({
            let g = c.gdn;
            let hidden = c.embedding_length as int;
            let v = g.value_dim as int;
            let x = residual(h, c.embedding_length, r);
            let h1 = done(k, h, norm_ops(c, rows));
            let h2 = done(k, h1, chunk_qkv_op(c, rows));
            let h4 = done(k, h, until_readout(c, rows));
            let h5 = done(k, h4, chunk_gate_ops(c, rows));
            let h6 = done(k, h5, chunk_ssm_out_op(c, rows));
            let gated = gated_readout(k, c, row(h4.mem, Buf::GdnY, r * v, v), x);
            &&& row(h1.mem, Buf::Xn, r * hidden, hidden) == attn_input(k, x)
            &&& row(h2.mem, Buf::GdnQkv, r * g.conv_dim, g.conv_dim as int) == conv_input(k, c, x)
            &&& row(h5.mem, Buf::GdnY, r * v, v) == gated
            &&& row(h6.mem, Buf::GdnOut, r * hidden, hidden) == projected(
                k,
                Linear::SsmOut,
                hidden,
                gated,
            )
        }),
{
    broadcast use lemma_keeps;

    lemma_widths(c, rows as int);
    let g = c.gdn;
    let hidden = c.embedding_length;
    let (n, v) = (rows as int, g.value_dim as int);
    lemma_row_inside(r, n, v);
    lemma_row_inside(r, n, hidden as int);
    let a = norm_ops(c, rows);
    let h1 = done(k, h, a);
    lemma_one(k, h, a);
    lemma_norm_row(
        k,
        h,
        start(Buf::X),
        Buf::AttnNorm,
        start(Buf::Xn),
        rows,
        hidden,
        Eps::Rms,
        r,
    );
    let b1 = chunk_qkv_op(c, rows);
    lemma_one(k, h1, b1);
    lemma_matmul_row(
        k,
        h1,
        Linear::AttnQkv,
        start(Buf::Xn),
        start(Buf::GdnQkv),
        rows,
        g.conv_dim,
        hidden,
        r,
    );
    let conv = a + (b1 + chunk_conv_ops(c, rows));
    let w = chunkwise_ops(g, n);
    lemma_in_turn(k, h, conv, w);
    let h3 = done(k, h, conv);
    let h4 = done(k, h3, w);
    law_chunk_convolves_every_row(k, h, c, rows, r);
    lemma_tiles_change(g, n, tile_count(n) as nat, Buf::GdnZ);
    lemma_keeps_all(k, h3, w, Buf::GdnZ, r * v, v);
    let d1 = chunk_gate_ops(c, rows);
    lemma_two(k, h4, d1);
    let t = after(k, h4, d1[0]);
    let h5 = after(k, t, d1[1]);
    lemma_normed_heads(
        k,
        h4,
        Buf::GdnY,
        Buf::SsmNorm,
        rows,
        g.num_v_heads,
        g.head_v_dim,
        Eps::Rms,
        r,
    );
    let (y, z) = (start(Buf::GdnY), start(Buf::GdnZ));
    lemma_silu_row(k, t, z, y, y, (rows * g.value_dim) as u32, r * v, v);
    assert(row(t.mem, Buf::GdnZ, r * v, v) == row(h4.mem, Buf::GdnZ, r * v, v));
    let d2 = chunk_ssm_out_op(c, rows);
    lemma_one(k, h5, d2);
    lemma_matmul_row(
        k,
        h5,
        Linear::SsmOut,
        y,
        start(Buf::GdnOut),
        rows,
        hidden,
        g.value_dim,
        r,
    );
}

/// A layer records the residual it leaves, and a mixture of experts the one
/// it starts from; and without a diagnostic run nothing is recorded.
pub proof fn law_layer_records_its_residuals<T>(
    k: Machine<T>,
    h: Held<T>,
    c: ConfigModel,
    w: MoeFfnWeights,
    p: PassParams,
    r: int,
)
    requires
        p.chunk,
    ensures
        ({
            let x = residual(h, c.embedding_length, r);
            let (end, start) = (
                noted(k, h, layer_close(c, p), r),
                noted(k, h, ffn_open(c, Ffn::Moe(w), p), r),
            );
            if p.captured {
                &&& end == seq![Noted { probe: Probe::ResidPost, rows: p.rows, row: x }]
                &&& start == seq![Noted { probe: Probe::ResidPreFfn, rows: p.rows, row: x }]
            } else {
                end.len() == 0 && start.len() == 0
            }
        }),
{
    let hidden = c.embedding_length;
    let m = c.moe->0;
    let none = Seq::<Step>::empty();
    if p.captured {
        lemma_ops_none(none);
        lemma_noted_then(k, h, Probe::ResidPost, Buf::X, p.rows, hidden, none, ops_of(none), r);
        let last = record(true, Probe::ResidPost, Buf::X, p.rows, hidden);
        assert(layer_close(c, p) =~= last + none);
        let route = moe_route_ops(c, m, At { buf: Buf::X, offset: 0 });
        lemma_ops_runs(route);
        lemma_noted_then(
            k,
            h,
            Probe::ResidPreFfn,
            Buf::X,
            p.rows,
            hidden,
            runs(route),
            route,
            r,
        );
    } else {
        lemma_none_noted(k, h, layer_close(c, p), r);
        lemma_none_noted(k, h, ffn_open(c, Ffn::Moe(w), p), r);
    }
}

} // verus!
