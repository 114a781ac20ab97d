//! What a dense feed-forward part computes.

use super::{
    added, after, done, lemma_add_row, lemma_in_turn, lemma_keeps, lemma_matmul_row,
    lemma_matvec_row, lemma_norm_row, lemma_one, lemma_row_inside, lemma_silu_row, lemma_three,
    normed, projected, residual, zipped, Held, Machine,
};
use crate::qwen35::config::ConfigModel;
use crate::qwen35::forward::dims::{dims_fit, lemma_widths};
use crate::qwen35::forward::ffn::{
    chunk_down_ops, chunk_gate_up_ops, down_ops, ffn_add_ops, ffn_chunk_steps, ffn_steps,
    gate_up_ops, lemma_ffn_chunk_ops, lemma_ffn_ops, post_norm_ops,
};
use crate::qwen35::forward::plan::{ops_of, start, Buf, Eps, Linear};
use vstd::prelude::*;

verus! {

/// A gated feed-forward part: `down(silu(gate(x)) * up(x))`.
pub open spec fn gated<T>(k: Machine<T>, c: ConfigModel, x: Seq<T>) -> Seq<T> {
    let ff = c.feed_forward_length as int;
    projected(
        k,
        Linear::FfnDown,
        c.embedding_length as int,
        zipped(
            k.silu_mul,
            projected(k, Linear::FfnGate, ff, x),
            projected(k, Linear::FfnUp, ff, x),
        ),
    )
}

/// A token's residual after a dense feed-forward part: the part works on the
/// normalised residual, and its output is added.
pub open spec fn fed_forward<T>(k: Machine<T>, c: ConfigModel, x: Seq<T>) -> Seq<T> {
    added(k, x, gated(k, c, normed(k, Buf::PostAttentionNorm, Eps::Rms, x)))
}

/// A dense feed-forward part adds `down(silu(gate(x)) * up(x))` of the
/// normalised residual to the residual of every row of a chunk, each on its
/// own.
pub proof fn law_chunk_feeds_every_row_forward<T>(
    k: Machine<T>,
    h: Held<T>,
    c: ConfigModel,
    rows: u32,
    scoped: bool,
    captured: bool,
    r: int,
)
    requires
        dims_fit(c, rows as int),
        0 <= r < rows,
    ensures
        residual(
            done(k, h, ops_of(ffn_chunk_steps(c, rows, scoped, captured))),
            c.embedding_length,
            r,
        ) == fed_forward(k, c, residual(h, c.embedding_length, r)),
{
    broadcast use lemma_keeps;

    lemma_ffn_chunk_ops(c, rows, scoped, captured);
    lemma_widths(c, rows as int);
    let (hidden, ff) = (c.embedding_length, c.feed_forward_length);
    lemma_row_inside(r, rows as int, hidden as int);
    lemma_row_inside(r, rows as int, ff as int);
    let (a, b) = (post_norm_ops(c, rows), chunk_gate_up_ops(c, rows));
    let (d, e) = (chunk_down_ops(c, rows), ffn_add_ops(c, rows));
    lemma_in_turn(k, h, a + b + d, e);
    lemma_in_turn(k, h, a + b, d);
    lemma_in_turn(k, h, a, b);
    let h1 = done(k, h, a);
    let h4 = done(k, h1, b);
    let h5 = done(k, h4, d);
    lemma_one(k, h, a);
    lemma_three(k, h1, b);
    lemma_one(k, h4, d);
    lemma_one(k, h5, e);
    let norm = Buf::PostAttentionNorm;
    lemma_norm_row(k, h, start(Buf::X), norm, start(Buf::Xn), rows, hidden, Eps::Rms, r);
    let (g, u) = (start(Buf::FfnGate), start(Buf::FfnUp));
    lemma_matmul_row(k, h1, Linear::FfnGate, start(Buf::Xn), g, rows, ff, hidden, r);
    let h2 = after(k, h1, b[0]);
    lemma_matmul_row(k, h2, Linear::FfnUp, start(Buf::Xn), u, rows, ff, hidden, r);
    let h3 = after(k, h2, b[1]);
    lemma_silu_row(k, h3, g, u, g, (rows * ff) as u32, r * ff, ff as int);
    lemma_matmul_row(k, h4, Linear::FfnDown, g, start(Buf::FfnOut), rows, hidden, ff, r);
    lemma_add_row(
        k,
        h5,
        start(Buf::X),
        start(Buf::FfnOut),
        (rows * hidden) as u32,
        r * hidden,
        hidden as int,
    );
}

/// A decoded token's residual gets what a row of a chunk gets.
pub proof fn law_token_is_fed_forward<T>(k: Machine<T>, h: Held<T>, c: ConfigModel, scoped: bool)
    requires
        dims_fit(c, 1),
    ensures
        residual(done(k, h, ops_of(ffn_steps(c, scoped))), c.embedding_length, 0) == fed_forward(
            k,
            c,
            residual(h, c.embedding_length, 0),
        ),
{
    broadcast use lemma_keeps;

    lemma_ffn_ops(c, scoped);
    let (hidden, ff) = (c.embedding_length, c.feed_forward_length);
    let (a, b) = (post_norm_ops(c, 1), gate_up_ops(c));
    let (d, e) = (down_ops(c), ffn_add_ops(c, 1));
    lemma_in_turn(k, h, a + b + d, e);
    lemma_in_turn(k, h, a + b, d);
    lemma_in_turn(k, h, a, b);
    let h1 = done(k, h, a);
    let h4 = done(k, h1, b);
    let h5 = done(k, h4, d);
    lemma_one(k, h, a);
    lemma_three(k, h1, b);
    lemma_one(k, h4, d);
    lemma_one(k, h5, e);
    let norm = Buf::PostAttentionNorm;
    lemma_norm_row(k, h, start(Buf::X), norm, start(Buf::Xn), 1, hidden, Eps::Rms, 0);
    let (g, u) = (start(Buf::FfnGate), start(Buf::FfnUp));
    lemma_matvec_row(k, h1, Linear::FfnGate, start(Buf::Xn), g, ff, hidden);
    let h2 = after(k, h1, b[0]);
    lemma_matvec_row(k, h2, Linear::FfnUp, start(Buf::Xn), u, ff, hidden);
    let h3 = after(k, h2, b[1]);
    lemma_silu_row(k, h3, g, u, g, ff, 0, ff as int);
    lemma_matvec_row(k, h4, Linear::FfnDown, g, start(Buf::FfnOut), hidden, ff);
    lemma_add_row(k, h5, start(Buf::X), start(Buf::FfnOut), hidden, 0, hidden as int);
}

} // verus!
