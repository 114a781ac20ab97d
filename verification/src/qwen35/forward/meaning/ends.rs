//! Where a pass begins and ends: embeddings and logits.

use super::{
    after, done, lemma_in_turn, lemma_keeps, lemma_matvec_row, lemma_norm_row, lemma_one,
    lemma_put_row, lemma_row_inside, lemma_two, normed, projected, residual, Held, Machine,
};
use crate::qwen35::config::ConfigModel;
use crate::qwen35::forward::dims::{dims_fit, lemma_widths};
use crate::qwen35::forward::layer::PassParams;
use crate::qwen35::forward::model::pass::{
    embed_steps, lemma_embed_ops, lemma_tail_ops, lm_head_ops, tail_norm_ops, tail_steps,
};
use crate::qwen35::forward::plan::{ops_of, start, At, Buf, Eps, Linear, Op};
use vstd::prelude::*;

verus! {

/// The embedding of a token.
pub open spec fn embedding<T>(k: Machine<T>, c: ConfigModel, id: T) -> Seq<T> {
    Seq::new(c.embedding_length as nat, |j: int| (k.embed)(id, j))
}

/// The logits that follow a residual: output norm, then output projection.
pub open spec fn logits_of<T>(k: Machine<T>, c: ConfigModel, x: Seq<T>) -> Seq<T> {
    projected(k, Linear::Output, c.vocab_size as int, normed(k, Buf::OutputNorm, Eps::Rms, x))
}

/// A pass begins with the embedding of every token it was given, in their
/// order.
pub proof fn law_pass_begins_with_its_tokens<T>(
    k: Machine<T>,
    h: Held<T>,
    c: ConfigModel,
    p: PassParams,
    r: int,
)
    requires
        dims_fit(c, p.rows as int),
        0 <= r < p.rows,
    ensures
        residual(done(k, h, ops_of(embed_steps(c, p))), c.embedding_length, r) == embedding(
            k,
            c,
            k.ids[r],
        ),
{
    lemma_embed_ops(c, p);
    let ops = ops_of(embed_steps(c, p));
    lemma_two(k, h, ops);
    let h1 = after(k, h, ops[0]);
    let mem = h1.mem;
    lemma_row_inside(r, p.rows as int, c.embedding_length as int);
    lemma_put_row(
        mem,
        At { buf: Buf::X, offset: 0 },
        p.rows as int,
        c.embedding_length as int,
        |r: int, j: int| (k.embed)(mem(Buf::TokenIds, r), j),
        r,
    );
    assert(mem(Buf::TokenIds, r) == k.ids[r]);
    assert(residual(done(k, h, ops), c.embedding_length, r) =~= embedding(k, c, k.ids[r]));
}

/// The logits of a pass are those that follow its last token: `last` is the
/// row that ends where the residuals of the pass end. They are read back only
/// when they are wanted, and the residuals stay as they were.
pub proof fn law_logits_follow_the_last_token<T>(
    k: Machine<T>,
    h: Held<T>,
    c: ConfigModel,
    p: PassParams,
    last: int,
)
    requires
        dims_fit(c, p.rows as int),
        last + 1 == p.rows,
    ensures
        p.want_logits ==> done(k, h, ops_of(tail_steps(c, p))).logits == logits_of(
            k,
            c,
            residual(h, c.embedding_length, last),
        ),
        !p.want_logits ==> done(k, h, ops_of(tail_steps(c, p))) == h,
        forall|r: int|
            0 <= r < p.rows ==> #[trigger] residual(
                done(k, h, ops_of(tail_steps(c, p))),
                c.embedding_length,
                r,
            ) == residual(h, c.embedding_length, r),
{
    broadcast use lemma_keeps;

    lemma_tail_ops(c, p);
    if p.want_logits {
        lemma_widths(c, p.rows as int);
        let hidden = c.embedding_length;
        lemma_row_inside(last, p.rows as int, hidden as int);
        let (a, b) = (tail_norm_ops(c, p), lm_head_ops(c));
        let d = seq![Op::ReadLogits { vocab: c.vocab_size }];
        lemma_in_turn(k, h, a + b, d);
        lemma_in_turn(k, h, a, b);
        let h1 = done(k, h, a);
        let h2 = done(k, h1, b);
        lemma_one(k, h, a);
        lemma_one(k, h1, b);
        lemma_one(k, h2, d);
        let x = At { buf: Buf::X, offset: (last * hidden) as usize };
        lemma_norm_row(k, h, x, Buf::OutputNorm, start(Buf::Xn), 1, hidden, Eps::Rms, 0);
        lemma_matvec_row(
            k,
            h1,
            Linear::Output,
            start(Buf::Xn),
            start(Buf::Logits),
            c.vocab_size,
            hidden,
        );
    }
}

} // verus!
