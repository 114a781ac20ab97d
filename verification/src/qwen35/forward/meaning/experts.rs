//! What the chosen experts add to a token's residual, wherever their matrices
//! are kept and whenever they are copied.

use super::{
    after, changes, done, lemma_four, lemma_in_turn, lemma_keeps, lemma_keeps_element, lemma_one,
    lemma_product_row, lemma_silu_row, normed, projected, row, takes_experts, zipped, Held, Machine,
};
use crate::qwen35::cache::effect::Memory;
use crate::qwen35::config::{ConfigModel, MoeConfig};
use crate::qwen35::forward::moe::{expert_ops, moe_route_ops, ExpertAt};
use crate::qwen35::forward::plan::{start, At, Buf, Eps, ExpertPart, Linear, Op};
use vstd::prelude::*;

verus! {

/// A projection with one of an expert's matrices.
pub open spec fn expert_projected<T>(
    k: Machine<T>,
    part: ExpertPart,
    expert: u32,
    m: int,
    x: Seq<T>,
) -> Seq<T> {
    Seq::new(m as nat, |j: int| (k.project_expert)(part, (k.matrix)(part, expert), x, j))
}

/// An expert's output: `down(silu(gate(x)) * up(x))` with its own matrices.
pub open spec fn expert_out<T>(
    k: Machine<T>,
    c: ConfigModel,
    m: MoeConfig,
    expert: u32,
    x: Seq<T>,
) -> Seq<T> {
    let ff = m.expert_ff_len as int;
    expert_projected(
        k,
        ExpertPart::Down,
        expert,
        c.embedding_length as int,
        zipped(
            k.silu_mul,
            expert_projected(k, ExpertPart::Gate, expert, ff, x),
            expert_projected(k, ExpertPart::Up, expert, ff, x),
        ),
    )
}

/// A sum with a weighted output added to it.
pub open spec fn accumulated<T>(k: Machine<T>, sum: Seq<T>, weight: T, y: Seq<T>) -> Seq<T> {
    Seq::new(sum.len(), |j: int| (k.accumulate)(sum[j], weight, y[j]))
}

/// The sum after the first `n` chosen experts, each with the weight of its
/// own choice.
pub open spec fn chosen_sum<T>(
    k: Machine<T>,
    c: ConfigModel,
    m: MoeConfig,
    experts: Seq<u32>,
    weights: spec_fn(int) -> T,
    x: Seq<T>,
    first: Seq<T>,
    n: nat,
) -> Seq<T>
    decreases n,
{
    if n == 0 {
        first
    } else {
        let i = n - 1;
        accumulated(
            k,
            chosen_sum(k, c, m, experts, weights, x, first, i as nat),
            weights(i),
            expert_out(k, c, m, experts[i], x),
        )
    }
}

/// The shared expert's output, scaled by its own gate: every token's sum
/// starts with it.
pub open spec fn shared_out<T>(k: Machine<T>, c: ConfigModel, m: MoeConfig, x: Seq<T>) -> Seq<T> {
    let ff = m.shared_ff_len as int;
    let y = projected(
        k,
        Linear::SharedDown,
        c.embedding_length as int,
        zipped(
            k.silu_mul,
            projected(k, Linear::SharedGate, ff, x),
            projected(k, Linear::SharedUp, ff, x),
        ),
    );
    let scale = (k.project_single)(Buf::SharedGate, x, 0);
    Seq::new(y.len(), |j: int| (k.sigmoid_mul)(y[j], scale))
}

/// The router's logits.
pub open spec fn router_logits<T>(k: Machine<T>, m: MoeConfig, x: Seq<T>) -> Seq<T> {
    Seq::new(m.expert_count as nat, |j: int| (k.project_single)(Buf::Router, x, j))
}

/// What the experts read.
pub open spec fn expert_input<T>(k: Machine<T>, x: Seq<T>) -> Seq<T> {
    normed(k, Buf::PostAttentionNorm, Eps::Rms, x)
}

/// The weight of a token's `i`-th choice.
pub open spec fn choice_weights<T>(k: Machine<T>, m: MoeConfig, x: Seq<T>) -> spec_fn(int) -> T {
    |i: int| (k.choice_weight)(m.expert_used_count, router_logits(k, m, expert_input(k, x)), i)
}

/// A number that stays where it is.
proof fn lemma_kept_number<T>(k: Machine<T>, h: Held<T>, op: Op, b: Buf, i: int)
    requires
        !changes(op, b),
    ensures
        (after(k, h, op).mem)(b, i) == (h.mem)(b, i),
{
    lemma_keeps_element(k, h, op, b, i);
}

/// The router and the shared expert of one token: what the experts will read,
/// the choices and their weights, and the sum's first term.
pub proof fn law_token_is_routed<T>(k: Machine<T>, h: Held<T>, c: ConfigModel, m: MoeConfig, x: At)
    requires
        x.buf == Buf::X,
    ensures
        ({
            let hidden = c.embedding_length as int;
            let t = done(k, h, moe_route_ops(c, m, x));
            let r = row(h.mem, Buf::X, x.offset as int, hidden);
            let logits = router_logits(k, m, expert_input(k, r));
            &&& row(t.mem, Buf::MoeXn, 0, hidden) == expert_input(k, r)
            &&& row(t.mem, Buf::MoeAccum, 0, hidden) == shared_out(k, c, m, expert_input(k, r))
            &&& row(t.mem, Buf::MoeTopkIdx, 0, m.expert_used_count as int) == Seq::new(
                m.expert_used_count as nat,
                |j: int| (k.choice)(m.expert_used_count, logits, j),
            )
            &&& row(t.mem, Buf::MoeTopkWeight, 0, m.expert_used_count as int) == Seq::new(
                m.expert_used_count as nat,
                |j: int| choice_weights(k, m, r)(j),
            )
            &&& row(t.mem, Buf::X, x.offset as int, hidden) == r
        }),
{
    broadcast use lemma_keeps;

    let hidden = c.embedding_length;
    let n = hidden as int;
    let ff = m.shared_ff_len;
    let used = m.expert_used_count as int;
    let ops = moe_route_ops(c, m, x);
    let (a, b) = (ops.take(4), ops.skip(4));
    lemma_in_turn(k, h, a, b);
    assert(a + b =~= ops);
    lemma_four(k, h, a);
    let h1 = after(k, h, ops[0]);
    let h2 = after(k, h1, ops[1]);
    let h3 = after(k, h2, ops[2]);
    let h4 = after(k, h3, ops[3]);
    let (d, e) = (b.take(4), b.skip(4));
    lemma_in_turn(k, h4, d, e);
    assert(d + e =~= b);
    lemma_four(k, h4, d);
    let h5 = after(k, h4, ops[4]);
    let h6 = after(k, h5, ops[5]);
    let h7 = after(k, h6, ops[6]);
    let h8 = after(k, h7, ops[7]);
    lemma_one(k, h8, e);
    let t = after(k, h8, ops[8]);
    let xn = start(Buf::MoeXn);
    let r = row(h.mem, Buf::X, x.offset as int, n);
    let y = expert_input(k, r);
    super::lemma_norm_row(k, h, x, Buf::PostAttentionNorm, xn, 1, hidden, Eps::Rms, 0);
    assert(row(h1.mem, Buf::MoeXn, 0, n) == y);
    let single = |w: Buf| |s: Seq<T>, j: int| (k.project_single)(w, s, j);
    let logits_at = start(Buf::MoeRouterLogits);
    lemma_product_row(
        h1.mem,
        single(Buf::Router),
        xn,
        logits_at,
        1,
        m.expert_count as int,
        n,
        0,
    );
    let logits = router_logits(k, m, y);
    assert(row(h2.mem, Buf::MoeRouterLogits, 0, m.expert_count as int) =~= logits);
    let f = |r: int, j: int|
        (k.choice)(
            m.expert_used_count,
            row(
                h2.mem,
                Buf::MoeRouterLogits,
                r * m.expert_count,
                m.expert_count as int,
            ),
            j,
        );
    let g = |r: int, j: int|
        (k.choice_weight)(
            m.expert_used_count,
            row(
                h2.mem,
                Buf::MoeRouterLogits,
                r * m.expert_count,
                m.expert_count as int,
            ),
            j,
        );
    let mid = super::put_rows(h2.mem, start(Buf::MoeTopkIdx), 1, used, f);
    super::lemma_put_row(h2.mem, start(Buf::MoeTopkIdx), 1, used, f, 0);
    super::lemma_put_row(mid, start(Buf::MoeTopkWeight), 1, used, g, 0);
    assert(row(h3.mem, Buf::MoeTopkIdx, 0, used) =~= row(mid, Buf::MoeTopkIdx, 0, used));
    assert(row(h3.mem, Buf::MoeTopkIdx, 0, used) =~= Seq::new(
        used as nat,
        |j: int| (k.choice)(m.expert_used_count, logits, j),
    ));
    assert(row(h3.mem, Buf::MoeTopkWeight, 0, used) =~= Seq::new(
        used as nat,
        |j: int| choice_weights(k, m, r)(j),
    ));
    let (fa, fb) = (start(Buf::MoeFfnA), start(Buf::MoeFfnB));
    super::lemma_matvec_row(k, h3, Linear::SharedGate, xn, fa, ff, hidden);
    super::lemma_matvec_row(k, h4, Linear::SharedUp, xn, fb, ff, hidden);
    lemma_silu_row(k, h5, fa, fb, fa, ff, 0, ff as int);
    super::lemma_matvec_row(
        k,
        h6,
        Linear::SharedDown,
        fa,
        start(Buf::MoeExpertOut),
        hidden,
        ff,
    );
    lemma_product_row(
        h7.mem,
        single(Buf::SharedGate),
        xn,
        start(Buf::MoeSharedGateLogit),
        1,
        1,
        n,
        0,
    );
    let scale = (k.project_single)(Buf::SharedGate, y, 0);
    assert(row(h8.mem, Buf::MoeSharedGateLogit, 0, 1)[0] == scale);
    assert((h8.mem)(Buf::MoeSharedGateLogit, 0) == scale);
    let out = row(h8.mem, Buf::MoeExpertOut, 0, n);
    assert(row(t.mem, Buf::MoeAccum, 0, n) =~= Seq::new(
        n as nat,
        |j: int| (k.sigmoid_mul)(out[j], scale),
    ));
    assert(row(t.mem, Buf::MoeAccum, 0, n) =~= shared_out(k, c, m, y));
}

/// An expert's matrices are at a place.
pub open spec fn at_place<T>(k: Machine<T>, mem: Memory<T>, at: ExpertAt, expert: u32) -> bool {
    &&& mem(at.gate.buf, at.gate.offset as int) == (k.matrix)(ExpertPart::Gate, expert)
    &&& mem(at.up.buf, at.up.offset as int) == (k.matrix)(ExpertPart::Up, expert)
    &&& mem(at.down.buf, at.down.offset as int) == (k.matrix)(ExpertPart::Down, expert)
}

/// The place is among the expert buffers.
pub open spec fn for_experts(at: ExpertAt) -> bool {
    takes_experts(at.gate.buf) && takes_experts(at.up.buf) && takes_experts(at.down.buf)
}

/// One expert's work on one token: its weighted output is added to the sum,
/// and the token stays as it was.
pub proof fn law_expert_adds_its_output<T>(
    k: Machine<T>,
    h: Held<T>,
    c: ConfigModel,
    m: MoeConfig,
    at: ExpertAt,
    i: int,
    expert: u32,
)
    requires
        for_experts(at),
        at_place(k, h.mem, at, expert),
        0 <= i <= usize::MAX,
    ensures
        ({
            let n = c.embedding_length as int;
            row(done(k, h, expert_ops(c, m, at, i)).mem, Buf::MoeAccum, 0, n) == accumulated(
                k,
                row(h.mem, Buf::MoeAccum, 0, n),
                (h.mem)(Buf::MoeTopkWeight, i),
                expert_out(k, c, m, expert, row(h.mem, Buf::MoeXn, 0, n)),
            )
        }),
{
    broadcast use lemma_keeps;

    let hidden = c.embedding_length;
    let n = hidden as int;
    let ff = m.expert_ff_len;
    let ops = expert_ops(c, m, at, i);
    let (a, b) = (ops.take(4), ops.skip(4));
    lemma_in_turn(k, h, a, b);
    assert(a + b =~= ops);
    lemma_four(k, h, a);
    let h1 = after(k, h, ops[0]);
    let h2 = after(k, h1, ops[1]);
    let h3 = after(k, h2, ops[2]);
    let h4 = after(k, h3, ops[3]);
    lemma_one(k, h4, b);
    let t = after(k, h4, ops[4]);
    let x = row(h.mem, Buf::MoeXn, 0, n);
    let (fa, fb, fx) = (start(Buf::MoeFfnA), start(Buf::MoeFfnB), start(Buf::MoeXn));
    let w = |p: ExpertPart| |s: Seq<T>, j: int|
        (k.project_expert)(p, (k.matrix)(p, expert), s, j);
    lemma_kept_number(k, h, ops[0], at.up.buf, at.up.offset as int);
    lemma_kept_number(k, h, ops[0], at.down.buf, at.down.offset as int);
    lemma_kept_number(k, h1, ops[1], at.down.buf, at.down.offset as int);
    lemma_kept_number(k, h2, ops[2], at.down.buf, at.down.offset as int);
    lemma_product_row(h.mem, w(ExpertPart::Gate), fx, fa, 1, ff as int, n, 0);
    assert(row(h1.mem, Buf::MoeFfnA, 0, ff as int) =~= expert_projected(
        k,
        ExpertPart::Gate,
        expert,
        ff as int,
        x,
    ));
    lemma_product_row(h1.mem, w(ExpertPart::Up), fx, fb, 1, ff as int, n, 0);
    assert(row(h2.mem, Buf::MoeFfnB, 0, ff as int) =~= expert_projected(
        k,
        ExpertPart::Up,
        expert,
        ff as int,
        x,
    ));
    lemma_silu_row(k, h2, fa, fb, fa, ff, 0, ff as int);
    lemma_product_row(
        h3.mem,
        w(ExpertPart::Down),
        fa,
        start(Buf::MoeExpertOut),
        1,
        n,
        ff as int,
        0,
    );
    let y = expert_out(k, c, m, expert, x);
    assert(row(h4.mem, Buf::MoeExpertOut, 0, n) =~= y);
    lemma_kept_number(k, h, ops[0], Buf::MoeTopkWeight, i);
    lemma_kept_number(k, h1, ops[1], Buf::MoeTopkWeight, i);
    lemma_kept_number(k, h2, ops[2], Buf::MoeTopkWeight, i);
    lemma_kept_number(k, h3, ops[3], Buf::MoeTopkWeight, i);
    let sum = row(h.mem, Buf::MoeAccum, 0, n);
    assert(row(h4.mem, Buf::MoeAccum, 0, n) == sum);
    assert forall|j: int| 0 <= j < n implies #[trigger] row(t.mem, Buf::MoeAccum, 0, n)[j] == (
    k.accumulate)(sum[j], (h.mem)(Buf::MoeTopkWeight, i), y[j]) by {
        assert(row(h4.mem, Buf::MoeAccum, 0, n)[j] == (h4.mem)(Buf::MoeAccum, j));
        assert(row(h4.mem, Buf::MoeExpertOut, 0, n)[j] == (h4.mem)(Buf::MoeExpertOut, j));
    }
    assert(row(t.mem, Buf::MoeAccum, 0, n) =~= accumulated(
        k,
        sum,
        (h.mem)(Buf::MoeTopkWeight, i),
        y,
    ));
}

} // verus!
