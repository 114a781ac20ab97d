//! What a linear-attention layer computes up to its recurrence: projections,
//! the causal convolution with its history, write strengths and decays.

use super::qkv::attn_input;
use super::{
    after, done, history, lemma_four, lemma_in_turn, lemma_keeps, lemma_matmul_row,
    lemma_matvec_row, lemma_norm_row, lemma_one, lemma_put_row, lemma_three, lemma_two, projected,
    residual, row, Held, Machine,
};
use crate::qwen35::cache::effect::Memory;
use crate::qwen35::config::ConfigModel;
use crate::qwen35::forward::attention::norm_ops;
use crate::qwen35::forward::dims::dims_fit;
use crate::qwen35::forward::gdn::conv_ops;
use crate::qwen35::forward::gdn_chunk::{chunk_conv_ops, chunk_qkv_op};
use crate::qwen35::forward::plan::{start, Buf, Eps, Linear, Op};
use vstd::prelude::*;

verus! {

/// The convolution's input.
pub open spec fn conv_input<T>(k: Machine<T>, c: ConfigModel, x: Seq<T>) -> Seq<T> {
    projected(k, Linear::AttnQkv, c.gdn.conv_dim as int, attn_input(k, x))
}

/// The output gate of a linear-attention layer.
pub open spec fn out_gate<T>(k: Machine<T>, c: ConfigModel, x: Seq<T>) -> Seq<T> {
    projected(k, Linear::AttnGate, c.gdn.value_dim as int, attn_input(k, x))
}

/// How strongly each head writes.
pub open spec fn strengths<T>(k: Machine<T>, c: ConfigModel, x: Seq<T>) -> Seq<T> {
    let raw = projected(k, Linear::SsmBeta, c.gdn.num_v_heads as int, attn_input(k, x));
    Seq::new(c.gdn.num_v_heads as nat, |j: int| (k.beta)(raw[j], j))
}

/// How fast each head forgets.
pub open spec fn decays<T>(k: Machine<T>, c: ConfigModel, x: Seq<T>) -> Seq<T> {
    let raw = projected(k, Linear::SsmAlpha, c.gdn.num_v_heads as int, attn_input(k, x));
    Seq::new(c.gdn.num_v_heads as nat, |j: int| (k.decay)(raw[j], j))
}

/// Numbers of a convolution's history.
pub open spec fn history_len(c: ConfigModel) -> int {
    (c.gdn.conv_kernel - 1) * c.gdn.conv_dim
}

/// The history a layer holds.
pub open spec fn held_history<T>(mem: Memory<T>, c: ConfigModel) -> Seq<T> {
    row(mem, Buf::ConvState, 0, history_len(c))
}

/// The history after the first `r` of these tokens.
pub open spec fn history_after<T>(
    k: Machine<T>,
    c: ConfigModel,
    before: Seq<T>,
    xs: spec_fn(int) -> Seq<T>,
    r: int,
) -> Seq<T> {
    history(k, c.gdn.conv_kernel, before, |i: int| conv_input(k, c, xs(i)), r as nat)
}

/// The convolution of one of these tokens: it sees the history that the
/// tokens before it left, and itself.
pub open spec fn convolved<T>(
    k: Machine<T>,
    c: ConfigModel,
    before: Seq<T>,
    xs: spec_fn(int) -> Seq<T>,
    r: int,
) -> Seq<T> {
    Seq::new(
        c.gdn.conv_dim as nat,
        |j: int|
            (k.conv)(
                c.gdn.conv_kernel,
                history_after(k, c, before, xs, r),
                conv_input(k, c, xs(r)),
                j,
            ),
    )
}

/// The tokens of a pass.
pub open spec fn tokens<T>(h: Held<T>, c: ConfigModel) -> spec_fn(int) -> Seq<T> {
    |r: int| residual(h, c.embedding_length, r)
}

/// The buffers hold a row's convolution, gate, strengths and decays.
pub open spec fn holds_row<T>(
    k: Machine<T>,
    c: ConfigModel,
    mem: Memory<T>,
    before: Seq<T>,
    xs: spec_fn(int) -> Seq<T>,
    r: int,
) -> bool {
    let g = c.gdn;
    let (w, n) = (g.conv_dim as int, g.num_v_heads as int);
    let v = g.value_dim as int;
    &&& row(mem, Buf::GdnConvOut, r * w, w) == convolved(k, c, before, xs, r)
    &&& row(mem, Buf::GdnZ, r * v, v) == out_gate(k, c, xs(r))
    &&& row(mem, Buf::GdnBeta, r * n, n) == strengths(k, c, xs(r))
    &&& row(mem, Buf::GdnG, r * n, n) == decays(k, c, xs(r))
}

/// Histories of the same inputs.
proof fn lemma_same_history<T>(
    k: Machine<T>,
    kernel: u32,
    before: Seq<T>,
    f: spec_fn(int) -> Seq<T>,
    g: spec_fn(int) -> Seq<T>,
    n: nat,
)
    requires
        forall|i: int| 0 <= i < n ==> #[trigger] f(i) == g(i),
    ensures
        history(k, kernel, before, f, n) == history(k, kernel, before, g, n),
    decreases n,
{
    if n > 0 {
        lemma_same_history(k, kernel, before, f, g, (n - 1) as nat);
        assert(f(n - 1) == g(n - 1));
    }
}

/// A history keeps its length.
pub proof fn lemma_history_len<T>(
    k: Machine<T>,
    kernel: u32,
    before: Seq<T>,
    f: spec_fn(int) -> Seq<T>,
    n: nat,
)
    ensures
        history(k, kernel, before, f, n).len() == before.len(),
    decreases n,
{
    if n > 0 {
        lemma_history_len(k, kernel, before, f, (n - 1) as nat);
    }
}

/// Strengths and decays of a row.
proof fn lemma_gates<T>(k: Machine<T>, h: Held<T>, c: ConfigModel, op: Op, rows: u32, r: int)
    requires
        0 <= r < rows,
        op == (Op::GdnGateChunk { heads: c.gdn.num_v_heads, chunk_len: rows }) || (rows == 1 && op
            == Op::GdnGate { n: c.gdn.num_v_heads }),
    ensures
        ({
            let n = c.gdn.num_v_heads as int;
            let t = after(k, h, op);
            &&& row(t.mem, Buf::GdnBeta, r * n, n) == Seq::new(
                n as nat,
                |j: int| (k.beta)(row(h.mem, Buf::GdnBRaw, r * n, n)[j], j),
            )
            &&& row(t.mem, Buf::GdnG, r * n, n) == Seq::new(
                n as nat,
                |j: int| (k.decay)(row(h.mem, Buf::GdnARaw, r * n, n)[j], j),
            )
        }),
{
    let n = c.gdn.num_v_heads as int;
    let mem = h.mem;
    let b = |r: int, j: int| (k.beta)(mem(Buf::GdnBRaw, r * n + j), j);
    let d = |r: int, j: int| (k.decay)(mem(Buf::GdnARaw, r * n + j), j);
    let (at_b, at_g) = (start(Buf::GdnBeta), start(Buf::GdnG));
    let one = super::put_rows(mem, at_b, rows as int, n, b);
    lemma_put_row(mem, at_b, rows as int, n, b, r);
    lemma_put_row(one, at_g, rows as int, n, d, r);
    let t = after(k, h, op);
    assert(row(t.mem, Buf::GdnBeta, r * n, n) =~= row(one, Buf::GdnBeta, r * n, n));
    assert(row(t.mem, Buf::GdnBeta, r * n, n) =~= Seq::new(
        n as nat,
        |j: int| (k.beta)(row(h.mem, Buf::GdnBRaw, r * n, n)[j], j),
    ));
    assert(row(t.mem, Buf::GdnG, r * n, n) =~= Seq::new(
        n as nat,
        |j: int| (k.decay)(row(h.mem, Buf::GdnARaw, r * n, n)[j], j),
    ));
}

/// The convolution of a row of a chunk.
proof fn lemma_chunk_conv<T>(
    k: Machine<T>,
    h: Held<T>,
    c: ConfigModel,
    rows: u32,
    before: Seq<T>,
    xs: spec_fn(int) -> Seq<T>,
    r: int,
)
    requires
        0 <= r < rows,
        before == held_history(h.mem, c),
        forall|i: int|
            #![trigger row(h.mem, Buf::GdnQkv, i * c.gdn.conv_dim, c.gdn.conv_dim as int)]
            0 <= i < rows ==> row(
                h.mem,
                Buf::GdnQkv,
                i * c.gdn.conv_dim,
                c.gdn.conv_dim as int,
            ) == conv_input(k, c, xs(i)),
    ensures
        ({
            let w = c.gdn.conv_dim as int;
            let op = Op::GdnConv1dChunk {
                channels: c.gdn.conv_dim,
                kernel_size: c.gdn.conv_kernel,
                chunk_len: rows,
            };
            row(after(k, h, op).mem, Buf::GdnConvOut, r * w, w) == convolved(k, c, before, xs, r)
        }),
{
    let w = c.gdn.conv_dim as int;
    let kernel = c.gdn.conv_kernel;
    let op = Op::GdnConv1dChunk { channels: c.gdn.conv_dim, kernel_size: kernel, chunk_len: rows };
    let f = |i: int| row(h.mem, Buf::GdnQkv, i * c.gdn.conv_dim, w);
    let g = |i: int| conv_input(k, c, xs(i));
    let out = |r: int, j: int|
        (k.conv)(kernel, history(k, kernel, before, f, r as nat), f(r), j);
    lemma_put_row(h.mem, start(Buf::GdnConvOut), rows as int, w, out, r);
    assert forall|i: int| 0 <= i < r + 1 implies #[trigger] f(i) == g(i) by {
        assert(row(h.mem, Buf::GdnQkv, i * c.gdn.conv_dim, w) == conv_input(k, c, xs(i)));
    }
    lemma_same_history(k, kernel, before, f, g, r as nat);
    assert(f(r) == g(r));
    assert(row(after(k, h, op).mem, Buf::GdnConvOut, r * w, w) =~= convolved(
        k,
        c,
        before,
        xs,
        r,
    ));
}

/// The history past a chunk.
proof fn lemma_chunk_history<T>(
    k: Machine<T>,
    h: Held<T>,
    c: ConfigModel,
    rows: u32,
    before: Seq<T>,
    xs: spec_fn(int) -> Seq<T>,
)
    requires
        1 <= c.gdn.conv_kernel,
        before == held_history(h.mem, c),
        forall|i: int|
            #![trigger row(h.mem, Buf::GdnQkv, i * c.gdn.conv_dim, c.gdn.conv_dim as int)]
            0 <= i < rows ==> row(
                h.mem,
                Buf::GdnQkv,
                i * c.gdn.conv_dim,
                c.gdn.conv_dim as int,
            ) == conv_input(k, c, xs(i)),
    ensures
        ({
            let op = Op::GdnConv1dChunkStateUpdate {
                channels: c.gdn.conv_dim,
                kernel_size: c.gdn.conv_kernel,
                chunk_len: rows,
            };
            held_history(after(k, h, op).mem, c) == history_after(k, c, before, xs, rows as int)
        }),
{
    let w = c.gdn.conv_dim as int;
    let kernel = c.gdn.conv_kernel;
    let op = Op::GdnConv1dChunkStateUpdate {
        channels: c.gdn.conv_dim,
        kernel_size: kernel,
        chunk_len: rows,
    };
    let f = |i: int| row(h.mem, Buf::GdnQkv, i * c.gdn.conv_dim, w);
    let g = |i: int| conv_input(k, c, xs(i));
    assert forall|i: int| 0 <= i < rows implies #[trigger] f(i) == g(i) by {
        assert(row(h.mem, Buf::GdnQkv, i * c.gdn.conv_dim, w) == conv_input(k, c, xs(i)));
    }
    lemma_same_history(k, kernel, before, f, g, rows as nat);
    lemma_history_len(k, kernel, before, f, rows as nat);
    assert(0 <= history_len(c)) by (nonlinear_arith)
        requires
            1 <= c.gdn.conv_kernel,
            history_len(c) == (c.gdn.conv_kernel - 1) * c.gdn.conv_dim,
    ;
    assert(held_history(after(k, h, op).mem, c) =~= history(k, kernel, before, f, rows as nat));
}

/// A chunk's projections and convolution: every row sees the history as its
/// own predecessors leave it, whether they are in the chunk or before it; and
/// the layer's history ends up past the whole chunk.
pub proof fn law_chunk_convolves_every_row<T>(
    k: Machine<T>,
    h: Held<T>,
    c: ConfigModel,
    rows: u32,
    r: int,
)
    requires
        dims_fit(c, rows as int),
        1 <= c.gdn.conv_kernel,
        0 <= r < rows,
    ensures
        ({
            let ops = norm_ops(c, rows) + (chunk_qkv_op(c, rows) + chunk_conv_ops(c, rows));
            let t = done(k, h, ops);
            let before = held_history(h.mem, c);
            &&& holds_row(k, c, t.mem, before, tokens(h, c), r)
            &&& held_history(t.mem, c) == history_after(k, c, before, tokens(h, c), rows as int)
        }),
{
    broadcast use lemma_keeps;

    let hidden = c.embedding_length;
    let g = c.gdn;
    let (a, b, d) = (norm_ops(c, rows), chunk_qkv_op(c, rows), chunk_conv_ops(c, rows));
    lemma_in_turn(k, h, a, b + d);
    let h1 = done(k, h, a);
    lemma_in_turn(k, h1, b, d);
    let h2 = done(k, h1, b);
    lemma_one(k, h, a);
    lemma_one(k, h1, b);
    lemma_in_turn(k, h2, d.take(3), d.skip(3));
    assert(d.take(3) + d.skip(3) =~= d);
    lemma_three(k, h2, d.take(3));
    let h5 = done(k, h2, d.take(3));
    lemma_three(k, h5, d.skip(3));
    let h3 = after(k, h2, d[0]);
    let h4 = after(k, h3, d[1]);
    let h6 = after(k, h5, d[3]);
    let h7 = after(k, h6, d[4]);
    let t = done(k, h, a + (b + d));
    assert(t == after(k, h7, d[5]));
    let xn = start(Buf::Xn);
    lemma_norm_row(k, h, start(Buf::X), Buf::AttnNorm, xn, rows, hidden, Eps::Rms, r);
    let (z, ar, br) = (start(Buf::GdnZ), start(Buf::GdnARaw), start(Buf::GdnBRaw));
    lemma_matmul_row(k, h2, Linear::AttnGate, xn, z, rows, g.value_dim, hidden, r);
    lemma_matmul_row(k, h3, Linear::SsmAlpha, xn, ar, rows, g.num_v_heads, hidden, r);
    lemma_matmul_row(k, h4, Linear::SsmBeta, xn, br, rows, g.num_v_heads, hidden, r);
    let before = held_history(h.mem, c);
    let xs = tokens(h, c);
    let w = g.conv_dim as int;
    assert forall|i: int| 0 <= i < rows implies #[trigger] row(h5.mem, Buf::GdnQkv, i * w, w)
        == conv_input(k, c, xs(i)) && row(h6.mem, Buf::GdnQkv, i * w, w) == conv_input(
        k,
        c,
        xs(i),
    ) by {
        lemma_norm_row(k, h, start(Buf::X), Buf::AttnNorm, xn, rows, hidden, Eps::Rms, i);
        lemma_matmul_row(
            k,
            h1,
            Linear::AttnQkv,
            xn,
            start(Buf::GdnQkv),
            rows,
            g.conv_dim,
            hidden,
            i,
        );
    }
    assert forall|i: int| 0 <= i < rows implies #[trigger] row(h6.mem, Buf::GdnQkv, i * w, w)
        == conv_input(k, c, xs(i)) by {
        assert(row(h5.mem, Buf::GdnQkv, i * w, w) == conv_input(k, c, xs(i)));
    }
    assert(held_history(h5.mem, c) == before);
    assert(held_history(h6.mem, c) == before);
    lemma_chunk_conv(k, h5, c, rows, before, xs, r);
    lemma_chunk_history(k, h6, c, rows, before, xs);
    lemma_gates(k, h7, c, d[5], rows, r);
    let n = g.num_v_heads as int;
    assert(row(t.mem, Buf::GdnBeta, r * n, n) =~= strengths(k, c, xs(r)));
    assert(row(t.mem, Buf::GdnG, r * n, n) =~= decays(k, c, xs(r)));
}

/// A decoded token's projections and convolution are those of a chunk of one
/// row.
pub proof fn law_token_is_convolved<T>(k: Machine<T>, h: Held<T>, c: ConfigModel)
    requires
        dims_fit(c, 1),
        1 <= c.gdn.conv_kernel,
    ensures
        ({
            let t = done(k, h, norm_ops(c, 1) + conv_ops(c));
            let before = held_history(h.mem, c);
            &&& holds_row(k, c, t.mem, before, tokens(h, c), 0)
            &&& held_history(t.mem, c) == history_after(k, c, before, tokens(h, c), 1)
        }),
{
    broadcast use lemma_keeps;

    let hidden = c.embedding_length;
    let g = c.gdn;
    let (a, d) = (norm_ops(c, 1), conv_ops(c));
    lemma_in_turn(k, h, a, d);
    let h1 = done(k, h, a);
    lemma_one(k, h, a);
    lemma_in_turn(k, h1, d.take(4), d.skip(4));
    assert(d.take(4) + d.skip(4) =~= d);
    lemma_four(k, h1, d.take(4));
    let h5 = done(k, h1, d.take(4));
    lemma_two(k, h5, d.skip(4));
    let h2 = after(k, h1, d[0]);
    let h3 = after(k, h2, d[1]);
    let h4 = after(k, h3, d[2]);
    let h6 = after(k, h5, d[4]);
    let t = done(k, h, a + d);
    assert(t == after(k, h6, d[5]));
    let xn = start(Buf::Xn);
    lemma_norm_row(k, h, start(Buf::X), Buf::AttnNorm, xn, 1, hidden, Eps::Rms, 0);
    let (z, ar, br) = (start(Buf::GdnZ), start(Buf::GdnARaw), start(Buf::GdnBRaw));
    lemma_matvec_row(k, h1, Linear::AttnQkv, xn, start(Buf::GdnQkv), g.conv_dim, hidden);
    lemma_matvec_row(k, h2, Linear::AttnGate, xn, z, g.value_dim, hidden);
    lemma_matvec_row(k, h3, Linear::SsmAlpha, xn, ar, g.num_v_heads, hidden);
    lemma_matvec_row(k, h4, Linear::SsmBeta, xn, br, g.num_v_heads, hidden);
    let before = held_history(h.mem, c);
    let xs = tokens(h, c);
    let w = g.conv_dim as int;
    let input = conv_input(k, c, xs(0));
    assert(row(h5.mem, Buf::GdnQkv, 0, w) == input);
    assert(held_history(h5.mem, c) == before);
    assert(0 <= history_len(c)) by (nonlinear_arith)
        requires
            1 <= c.gdn.conv_kernel,
            history_len(c) == (c.gdn.conv_kernel - 1) * c.gdn.conv_dim,
    ;
    reveal_with_fuel(history, 2);
    assert(row(h6.mem, Buf::GdnConvOut, 0, w) =~= convolved(k, c, before, xs, 0));
    assert(held_history(h6.mem, c) =~= history_after(k, c, before, xs, 1));
    lemma_gates(k, h6, c, d[5], 1, 0);
    let n = g.num_v_heads as int;
    assert(row(t.mem, Buf::GdnBeta, 0, n) =~= strengths(k, c, xs(0)));
    assert(row(t.mem, Buf::GdnG, 0, n) =~= decays(k, c, xs(0)));
}

/// A chunk that follows another: what the two leave in a layer's history, and
/// what each of their rows sees, is what one chunk of all their tokens does.
pub proof fn law_histories_go_on<T>(
    k: Machine<T>,
    c: ConfigModel,
    before: Seq<T>,
    xs: spec_fn(int) -> Seq<T>,
    a: int,
    r: int,
)
    requires
        0 <= a,
        0 <= r,
    ensures
        history_after(
            k,
            c,
            history_after(k, c, before, xs, a),
            |i: int| xs(a + i),
            r,
        ) == history_after(k, c, before, xs, a + r),
    decreases r,
{
    let mid = history_after(k, c, before, xs, a);
    let ys = |i: int| xs(a + i);
    let f = |i: int| conv_input(k, c, xs(i));
    let g = |i: int| conv_input(k, c, ys(i));
    lemma_history_len(k, c.gdn.conv_kernel, before, f, a as nat);
    if r > 0 {
        law_histories_go_on(k, c, before, xs, a, r - 1);
        assert(g(r - 1) == f(a + r - 1));
        assert(history_after(k, c, mid, ys, r) =~= history_after(k, c, before, xs, a + r));
    }
}

} // verus!
