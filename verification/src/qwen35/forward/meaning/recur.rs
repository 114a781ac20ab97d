//! What a linear-attention layer leaves: its recurrence, step by step or tile
//! by tile, and its output in the residual.

use super::attention::lemma_keeps_all;
use super::gdn::{
    convolved, decays, held_history, history_after, history_len, law_chunk_convolves_every_row,
    law_token_is_convolved, out_gate, strengths, tokens,
};
use super::heads::{each_head, head, lemma_heads_make_a_row, lemma_normed_heads};
use super::{
    added, after, changes, done, lemma_add_row, lemma_four, lemma_in_turn, lemma_keeps,
    lemma_keeps_element, lemma_matmul_row, lemma_matvec_row, lemma_norm_row, lemma_row_inside,
    lemma_silu_row, lemma_three, normed, projected, residual, row, zipped, Held, Machine,
    RecurShape, TileShape,
};
use crate::qwen35::cache::effect::Memory;
use crate::qwen35::cache::plane::{conv_elems, state_elems};
use crate::qwen35::config::{ConfigModel, GdnConfig};
use crate::qwen35::forward::attention::norm_ops;
use crate::qwen35::forward::dims::{dims_fit, lemma_widths};
use crate::qwen35::forward::gdn::{conv_ops, gdn_out_ops, gdn_steps, lemma_gdn_ops, recur_ops};
use crate::qwen35::forward::gdn_chunk::{
    chunk_conv_ops, chunk_gate_ops, chunk_gdn_add_op, chunk_qkv_op, chunk_ssm_out_op,
    gdn_chunk_steps, lemma_gdn_chunk_ops,
};
use crate::qwen35::forward::gdn_chunkwise::{
    chunkwise_ops, dispatch_for, law_tiles_cover_the_chunk, tile_count, tile_len, tile_ops,
    tile_start, tiles_ops,
};
use crate::qwen35::forward::plan::{ops_of, start, At, Buf, Eps, Linear, Op};
use vstd::prelude::*;

verus! {

/// The dimensions of the linear-attention layers fit together.
pub open spec fn consistent(g: GdnConfig) -> bool {
    &&& 1 <= g.conv_kernel
    &&& g.num_k_heads * g.head_k_dim == g.key_dim
    &&& g.num_v_heads * g.head_v_dim == g.value_dim
    &&& 2 * g.key_dim + g.value_dim == g.conv_dim
}

/// The heads of the recurrence.
pub open spec fn recur_shape(g: GdnConfig) -> RecurShape {
    RecurShape {
        num_v_heads: g.num_v_heads,
        num_k_heads: g.num_k_heads,
        head_k_dim: g.head_k_dim,
        head_v_dim: g.head_v_dim,
    }
}

/// Numbers of the recurrence's state.
pub open spec fn state_len(g: GdnConfig) -> int {
    g.num_v_heads * (g.head_k_dim * g.head_v_dim)
}

/// The state a layer holds.
pub open spec fn held_state<T>(mem: Memory<T>, g: GdnConfig) -> Seq<T> {
    row(mem, Buf::RecurState, 0, state_len(g))
}

/// A linear-attention layer keeps as much as a pass reads: the inputs that
/// the convolution still needs, and a matrix for every value head.
pub proof fn law_layer_keeps_what_a_pass_reads(c: ConfigModel)
    ensures
        conv_elems(c.gdn) == history_len(c),
        state_elems(c.gdn) == state_len(c.gdn),
{
    let g = c.gdn;
    assert(g.conv_dim * (g.conv_kernel - 1) == (g.conv_kernel - 1) * g.conv_dim)
        by (nonlinear_arith);
    assert(g.num_v_heads * g.head_k_dim * g.head_v_dim == g.num_v_heads * (g.head_k_dim
        * g.head_v_dim)) by (nonlinear_arith);
}

/// A run of a row's numbers.
pub open spec fn part<T>(s: Seq<T>, from: int, n: int) -> Seq<T> {
    Seq::new(n as nat, |j: int| s[from + j])
}

/// Unit-length heads of queries or keys.
pub open spec fn unit_heads<T>(k: Machine<T>, g: GdnConfig, scale: Buf, s: Seq<T>) -> Seq<T> {
    let hd = g.head_k_dim as int;
    each_head(
        g.num_k_heads as int,
        hd,
        |n: int| normed(k, scale, Eps::Millionth { dim: g.head_k_dim }, head(s, hd, n)),
    )
}

/// What one step of the recurrence reads: the state, then query, key and
/// value out of the convolution, strength and decay. Queries come first in
/// the convolution's output, then keys, then values.
pub open spec fn recur_inputs<T>(
    k: Machine<T>,
    g: GdnConfig,
    state: Seq<T>,
    conv: Seq<T>,
    beta: Seq<T>,
    decay: Seq<T>,
) -> Seq<Seq<T>> {
    let n = g.key_dim as int;
    seq![
        state,
        unit_heads(k, g, Buf::L2AlphaQ, part(conv, 0, n)),
        unit_heads(k, g, Buf::L2AlphaK, part(conv, n, n)),
        part(conv, 2 * n, g.value_dim as int),
        beta,
        decay,
    ]
}

/// A token's residual after a linear-attention layer: the readout, head by
/// head normalised, gated, projected and added.
pub open spec fn read_in<T>(
    k: Machine<T>,
    c: ConfigModel,
    gate: Seq<T>,
    y: Seq<T>,
    x: Seq<T>,
) -> Seq<T> {
    let g = c.gdn;
    let hd = g.head_v_dim as int;
    added(
        k,
        x,
        projected(
            k,
            Linear::SsmOut,
            c.embedding_length as int,
            zipped(
                k.silu_mul,
                gate,
                each_head(
                    g.num_v_heads as int,
                    hd,
                    |n: int| normed(k, Buf::SsmNorm, Eps::Rms, head(y, hd, n)),
                ),
            ),
        ),
    )
}

/// Heads normalised in place, somewhere in a buffer.
proof fn lemma_normed_part<T>(
    k: Machine<T>,
    h: Held<T>,
    at: At,
    norm: Buf,
    heads: u32,
    head_dim: u32,
    eps: Eps,
)
    ensures
        ({
            let op = Op::Rmsnorm {
                x: at,
                weight: norm,
                out: at,
                rows: heads,
                cols: head_dim,
                eps,
            };
            let hd = head_dim as int;
            let s = row(h.mem, at.buf, at.offset as int, heads * head_dim);
            row(after(k, h, op).mem, at.buf, at.offset as int, heads * head_dim) == each_head(
                heads as int,
                hd,
                |n: int| normed(k, norm, eps, head(s, hd, n)),
            )
        }),
{
    let op = Op::Rmsnorm { x: at, weight: norm, out: at, rows: heads, cols: head_dim, eps };
    let hd = head_dim as int;
    let s = row(h.mem, at.buf, at.offset as int, heads * head_dim);
    let f = |n: int| normed(k, norm, eps, head(s, hd, n));
    let h1 = after(k, h, op);
    assert forall|n: int| 0 <= n < heads implies #[trigger] f(n) == row(
        h1.mem,
        at.buf,
        at.offset + n * hd,
        hd,
    ) by {
        lemma_row_inside(n, heads as int, hd);
        lemma_norm_row(k, h, at, norm, at, heads, head_dim, eps, n);
        assert(head(s, hd, n) =~= row(h.mem, at.buf, at.offset + n * hd, hd));
    }
    lemma_heads_make_a_row(h1.mem, at.buf, at.offset as int, heads as int, hd, f);
}

/// One step of the recurrence.
proof fn lemma_recur<T>(
    k: Machine<T>,
    h: Held<T>,
    g: GdnConfig,
    conv: Seq<T>,
    beta: Seq<T>,
    decay: Seq<T>,
)
    requires
        consistent(g),
        row(h.mem, Buf::GdnConvOut, 0, g.conv_dim as int) == conv,
        row(h.mem, Buf::GdnBeta, 0, g.num_v_heads as int) == beta,
        row(h.mem, Buf::GdnG, 0, g.num_v_heads as int) == decay,
    ensures
        ({
            let t = done(k, h, recur_ops(g));
            let inputs = recur_inputs(k, g, held_state(h.mem, g), conv, beta, decay);
            let s = recur_shape(g);
            &&& row(t.mem, Buf::GdnY, 0, g.value_dim as int) == Seq::new(
                g.value_dim as nat,
                |i: int| (k.recur_out)(s, inputs, i),
            )
            &&& held_state(t.mem, g) == Seq::new(
                state_len(g) as nat,
                |i: int| (k.recur_state)(s, inputs, i),
            )
        }),
{
    broadcast use lemma_keeps;

    let ops = recur_ops(g);
    lemma_three(k, h, ops);
    let h1 = after(k, h, ops[0]);
    let h2 = after(k, h1, ops[1]);
    let t = after(k, h2, ops[2]);
    let n = g.key_dim as int;
    let v = g.value_dim as int;
    let b = Buf::GdnConvOut;
    let eps = Eps::Millionth { dim: g.head_k_dim };
    assert(0 * g.key_dim == 0 && 1 * g.key_dim == n && 2 * g.key_dim == 2 * n);
    let q_at = At { buf: b, offset: 0 };
    let k_at = At { buf: b, offset: g.key_dim as usize };
    lemma_normed_part(k, h, q_at, Buf::L2AlphaQ, g.num_k_heads, g.head_k_dim, eps);
    lemma_normed_part(k, h1, k_at, Buf::L2AlphaK, g.num_k_heads, g.head_k_dim, eps);
    assert(row(h.mem, b, 0, n) =~= part(conv, 0, n));
    assert(row(h1.mem, b, n, n) =~= row(h.mem, b, n, n)) by {
        assert forall|j: int| 0 <= j < n implies #[trigger] row(h1.mem, b, n, n)[j] == row(
            h.mem,
            b,
            n,
            n,
        )[j] by {}
    }
    assert(row(h.mem, b, n, n) =~= part(conv, n, n)) by {
        assert forall|j: int| 0 <= j < n implies #[trigger] row(h.mem, b, n, n)[j] == conv[n + j] by {
            assert(conv[n + j] == row(h.mem, b, 0, g.conv_dim as int)[n + j]);
        }
    }
    assert(row(h2.mem, b, 0, n) =~= row(h1.mem, b, 0, n));
    assert(row(h2.mem, b, 2 * n, v) =~= row(h.mem, b, 2 * n, v));
    assert(row(h.mem, b, 2 * n, v) =~= part(conv, 2 * n, v)) by {
        assert forall|j: int| 0 <= j < v implies #[trigger] row(h.mem, b, 2 * n, v)[j] == conv[2 * n
            + j] by {
            assert(conv[2 * n + j] == row(h.mem, b, 0, g.conv_dim as int)[2 * n + j]);
        }
    }
    let inputs = recur_inputs(k, g, held_state(h.mem, g), conv, beta, decay);
    let used = seq![
        row(h2.mem, Buf::RecurState, 0, state_len(g)),
        row(h2.mem, b, 0, n),
        row(h2.mem, b, n, n),
        row(h2.mem, b, 2 * n, v),
        row(h2.mem, Buf::GdnBeta, 0, g.num_v_heads as int),
        row(h2.mem, Buf::GdnG, 0, g.num_v_heads as int),
    ];
    assert(used =~= inputs);
    let s = recur_shape(g);
    assert(row(t.mem, Buf::GdnY, 0, v) =~= Seq::new(
        v as nat,
        |i: int| (k.recur_out)(s, inputs, i),
    ));
    assert(held_state(t.mem, g) =~= Seq::new(
        state_len(g) as nat,
        |i: int| (k.recur_state)(s, inputs, i),
    ));
}

/// The output stage of a row.
proof fn lemma_reads_in<T>(
    k: Machine<T>,
    h: Held<T>,
    c: ConfigModel,
    rows: u32,
    r: int,
    chunk: bool,
)
    requires
        dims_fit(c, rows as int),
        consistent(c.gdn),
        0 <= r < rows,
        !chunk ==> rows == 1,
    ensures
        ({
            let ops = if chunk {
                chunk_gate_ops(c, rows) + chunk_ssm_out_op(c, rows) + chunk_gdn_add_op(c, rows)
            } else {
                gdn_out_ops(c)
            };
            let v = c.gdn.value_dim as int;
            residual(done(k, h, ops), c.embedding_length, r) == read_in(
                k,
                c,
                row(h.mem, Buf::GdnZ, r * v, v),
                row(h.mem, Buf::GdnY, r * v, v),
                residual(h, c.embedding_length, r),
            )
        }),
{
    broadcast use lemma_keeps;

    lemma_widths(c, rows as int);
    let g = c.gdn;
    let hidden = c.embedding_length;
    let v = g.value_dim as int;
    lemma_row_inside(r, rows as int, v);
    lemma_row_inside(r, rows as int, hidden as int);
    let ops = if chunk {
        chunk_gate_ops(c, rows) + chunk_ssm_out_op(c, rows) + chunk_gdn_add_op(c, rows)
    } else {
        gdn_out_ops(c)
    };
    lemma_four(k, h, ops);
    let h1 = after(k, h, ops[0]);
    let h2 = after(k, h1, ops[1]);
    let h3 = after(k, h2, ops[2]);
    lemma_normed_heads(
        k,
        h,
        Buf::GdnY,
        Buf::SsmNorm,
        rows,
        g.num_v_heads,
        g.head_v_dim,
        Eps::Rms,
        r,
    );
    let (y, z, o) = (start(Buf::GdnY), start(Buf::GdnZ), start(Buf::GdnOut));
    assert(ops[0] == Op::Rmsnorm {
        x: y,
        weight: Buf::SsmNorm,
        out: y,
        rows: (rows * g.num_v_heads) as u32,
        cols: g.head_v_dim,
        eps: Eps::Rms,
    });
    assert(ops[1] == Op::SiluMul { gate: z, up: y, out: y, n: (rows * g.value_dim) as u32 });
    assert(ops[3] == Op::AddInplace {
        x: start(Buf::X),
        y: o,
        n: (rows * hidden) as u32,
    });
    lemma_silu_row(k, h1, z, y, y, (rows * g.value_dim) as u32, r * v, v);
    assert(row(h1.mem, Buf::GdnZ, r * v, v) == row(h.mem, Buf::GdnZ, r * v, v));
    if chunk {
        lemma_matmul_row(k, h2, Linear::SsmOut, y, o, rows, hidden, g.value_dim, r);
    } else {
        lemma_matvec_row(k, h2, Linear::SsmOut, y, o, hidden, g.value_dim);
    }
    lemma_add_row(
        k,
        h3,
        start(Buf::X),
        o,
        (rows * hidden) as u32,
        r * hidden,
        hidden as int,
    );
}

/// A decoded token through a linear-attention layer: its history slides on,
/// its recurrence takes one step from the layer's state, and its readout is
/// added to its residual.
#[verifier::spinoff_prover]
#[verifier::rlimit(40)]
pub proof fn law_token_is_read_in<T>(k: Machine<T>, h: Held<T>, c: ConfigModel, scoped: bool)
    requires
        dims_fit(c, 1),
        consistent(c.gdn),
    ensures
        ({
            let g = c.gdn;
            let u = done(k, h, ops_of(gdn_steps(c, scoped)));
            let x = residual(h, c.embedding_length, 0);
            let before = held_history(h.mem, c);
            let xs = tokens(h, c);
            let inputs = recur_inputs(
                k,
                g,
                held_state(h.mem, g),
                convolved(k, c, before, xs, 0),
                strengths(k, c, x),
                decays(k, c, x),
            );
            let s = recur_shape(g);
            &&& held_history(u.mem, c) == history_after(k, c, before, xs, 1)
            &&& held_state(u.mem, g) == Seq::new(
                state_len(g) as nat,
                |i: int| (k.recur_state)(s, inputs, i),
            )
            &&& residual(u, c.embedding_length, 0) == read_in(
                k,
                c,
                out_gate(k, c, x),
                Seq::new(g.value_dim as nat, |i: int| (k.recur_out)(s, inputs, i)),
                x,
            )
        }),
{
    lemma_gdn_ops(c, scoped);
    let g = c.gdn;
    let (a, b, d, e) = (norm_ops(c, 1), conv_ops(c), recur_ops(g), gdn_out_ops(c));
    lemma_in_turn(k, h, a + b + d, e);
    lemma_in_turn(k, h, a + b, d);
    let h1 = done(k, h, a + b);
    let h2 = done(k, h1, d);
    let u = done(k, h2, e);
    law_token_is_convolved(k, h, c);
    let before = held_history(h.mem, c);
    let xs = tokens(h, c);
    let x = residual(h, c.embedding_length, 0);
    let v = g.value_dim as int;
    lemma_keeps_all(k, h, a + b, Buf::RecurState, 0, state_len(g));
    lemma_keeps_all(k, h, a + b, Buf::X, 0, c.embedding_length as int);
    lemma_recur(
        k,
        h1,
        g,
        convolved(k, c, before, xs, 0),
        strengths(k, c, x),
        decays(k, c, x),
    );
    lemma_keeps_all(k, h1, d, Buf::GdnZ, 0, v);
    lemma_keeps_all(k, h1, d, Buf::X, 0, c.embedding_length as int);
    lemma_keeps_all(k, h1, d, Buf::ConvState, 0, super::gdn::history_len(c));
    lemma_reads_in(k, h2, c, 1, 0, false);
    lemma_keeps_all(k, h2, e, Buf::RecurState, 0, state_len(g));
    lemma_keeps_all(k, h2, e, Buf::ConvState, 0, super::gdn::history_len(c));
}

/// What a tile reads, and the heads it reads them for.
pub open spec fn tile_shape(g: GdnConfig, len: int) -> TileShape {
    TileShape {
        num_v_heads: g.num_v_heads,
        num_k_heads: g.num_k_heads,
        head_k_dim: g.head_k_dim,
        conv_dim: g.conv_dim,
        key_dim: g.key_dim,
        tile_len: len as u32,
    }
}

/// A tile's intermediate results, each a function of the tile's own rows of
/// convolution, strengths and decays, and of the state before it.
#[verifier::reject_recursive_types(T)]
pub struct Tile<T> {
    pub q: Seq<T>,
    pub k: Seq<T>,
    pub decay: Seq<T>,
    pub state_decay: Seq<T>,
    pub scores: Seq<T>,
    pub values: Seq<T>,
}

/// The tile of `len` tokens with this convolution, strengths and decays, from
/// this state on.
pub open spec fn tile<T>(
    m: Machine<T>,
    g: GdnConfig,
    len: int,
    state: Seq<T>,
    conv: Seq<T>,
    beta: Seq<T>,
    decay: Seq<T>,
) -> Tile<T> {
    let s = tile_shape(g, len);
    let eps = Eps::Millionth { dim: 1 };
    let size = (len * (g.num_v_heads * g.head_k_dim)) as nat;
    let square = (g.num_v_heads * (len * len)) as nat;
    let heads = g.num_v_heads;
    let q = Seq::new(size, |i: int| (m.tile_q)(s, eps, conv, i));
    let k = Seq::new(size, |i: int| (m.tile_k)(s, eps, conv, i));
    let kb = Seq::new(size, |i: int| (m.tile_k_beta)(s, eps, conv, beta, i));
    let sums = Seq::new((len * heads) as nat, |i: int| (m.tile_g)(heads, decay, i));
    let run = Seq::new((len * heads) as nat, |i: int| (m.tile_decay)(heads, decay, i));
    let past = Seq::new((len * heads) as nat, |i: int| (m.tile_state_decay)(heads, decay, i));
    let system = Seq::new(square, |i: int| (m.tile_system)(k, kb, sums, i));
    let inverse = Seq::new(square, |i: int| (m.tile_inverse)(system, i));
    let inputs = seq![conv, beta, inverse, kb, run, state];
    Tile {
        q,
        k,
        decay: run,
        state_decay: past,
        scores: Seq::new(square, |i: int| (m.tile_scores)(q, k, sums, i)),
        values: Seq::new(
            (len * (g.num_v_heads * g.head_v_dim)) as nat,
            |i: int| (m.tile_values)(s, inputs, i),
        ),
    }
}

/// A tile's readout: from the state before the tile.
pub open spec fn tile_readout<T>(m: Machine<T>, g: GdnConfig, len: int, state: Seq<T>, t: Tile<T>) -> Seq<
    T,
> {
    let inputs = seq![t.q, t.decay, state, t.scores, t.values];
    Seq::new(
        (len * (g.num_v_heads * g.head_v_dim)) as nat,
        |i: int| (m.tile_out)(inputs, i),
    )
}

/// The state a tile leaves.
pub open spec fn tile_left<T>(m: Machine<T>, g: GdnConfig, state: Seq<T>, t: Tile<T>) -> Seq<T> {
    let inputs = seq![state, t.k, t.decay, t.state_decay, t.values];
    Seq::new(state_len(g) as nat, |i: int| (m.tile_state)(inputs, i))
}

/// One tile of the recurrence.
proof fn lemma_tile<T>(m: Machine<T>, h: Held<T>, g: GdnConfig, from: int, len: u32)
    requires
        consistent(g),
        0 <= from,
        (from + len) * g.conv_dim <= u32::MAX,
        (from + len) * g.num_v_heads <= u32::MAX,
        (from + len) * g.value_dim <= u32::MAX,
    ensures
        ({
            let u = done(m, h, tile_ops(g, dispatch_for(g), from, len));
            let (w, n, v) = (g.conv_dim as int, g.num_v_heads as int, g.value_dim as int);
            let state = held_state(h.mem, g);
            let t = tile(
                m,
                g,
                len as int,
                state,
                row(h.mem, Buf::GdnConvOut, from * w, len * w),
                row(h.mem, Buf::GdnBeta, from * n, len * n),
                row(h.mem, Buf::GdnG, from * n, len * n),
            );
            &&& row(u.mem, Buf::GdnY, from * v, len * v) == tile_readout(
                m,
                g,
                len as int,
                state,
                t,
            )
            &&& held_state(u.mem, g) == tile_left(m, g, state, t)
            &&& forall|i: int|
                !(from * v <= i < from * v + len * v) ==> #[trigger] (u.mem)(Buf::GdnY, i) == (
                h.mem)(Buf::GdnY, i)
        }),
{
    broadcast use lemma_keeps;

    let ops = tile_ops(g, dispatch_for(g), from, len);
    let (w, n, v) = (g.conv_dim as int, g.num_v_heads as int, g.value_dim as int);
    assert(0 <= from * w <= (from + len) * w && 0 <= from * n <= (from + len) * n && 0 <= from * v
        <= (from + len) * v) by (nonlinear_arith)
        requires
            0 <= from,
            0 <= len,
            0 <= w,
            0 <= n,
            0 <= v,
    ;
    lemma_in_turn(m, h, ops.take(4), ops.skip(4));
    assert(ops.take(4) + ops.skip(4) =~= ops);
    lemma_four(m, h, ops.take(4));
    let h4 = done(m, h, ops.take(4));
    lemma_three(m, h4, ops.skip(4));
    let h1 = after(m, h, ops[0]);
    let h2 = after(m, h1, ops[1]);
    let h3 = after(m, h2, ops[2]);
    let h5 = after(m, h4, ops[4]);
    let h6 = after(m, h5, ops[5]);
    let u = after(m, h6, ops[6]);
    let l = len as int;
    let state = held_state(h.mem, g);
    let conv = row(h.mem, Buf::GdnConvOut, from * w, l * w);
    let beta = row(h.mem, Buf::GdnBeta, from * n, l * n);
    let decay = row(h.mem, Buf::GdnG, from * n, l * n);
    let s = tile_shape(g, l);
    let eps = Eps::Millionth { dim: 1 };
    let size = l * (g.num_v_heads * g.head_k_dim);
    let square = g.num_v_heads * (l * l);
    let wide = l * (g.num_v_heads * g.head_v_dim);
    let heads = g.num_v_heads;
    let t = tile(m, g, l, state, conv, beta, decay);
    let kb = Seq::new(size as nat, |i: int| (m.tile_k_beta)(s, eps, conv, beta, i));
    let sums = Seq::new((l * heads) as nat, |i: int| (m.tile_g)(heads, decay, i));
    let system = Seq::new(square as nat, |i: int| (m.tile_system)(t.k, kb, sums, i));
    let inverse = Seq::new(square as nat, |i: int| (m.tile_inverse)(system, i));
    assert(row(h1.mem, Buf::CwQNorm, 0, size) =~= t.q);
    assert(row(h1.mem, Buf::CwKNorm, 0, size) =~= t.k);
    assert(row(h1.mem, Buf::CwKBeta, 0, size) =~= kb);
    assert(row(h2.mem, Buf::CwGCum, 0, l * heads) =~= sums);
    assert(row(h2.mem, Buf::CwCumDecayExp, 0, l * heads) =~= t.decay);
    assert(row(h2.mem, Buf::CwStateDecay, 0, l * heads) =~= t.state_decay);
    assert(row(h3.mem, Buf::CwKb, 0, square) =~= system);
    assert(row(h3.mem, Buf::CwKq, 0, square) =~= t.scores);
    assert(row(h4.mem, Buf::CwKb, 0, square) =~= inverse);
    let inputs = seq![conv, beta, inverse, kb, t.decay, state];
    let used = seq![
        row(h4.mem, Buf::GdnConvOut, from * w, l * w),
        row(h4.mem, Buf::GdnBeta, from * n, l * n),
        row(h4.mem, Buf::CwKb, 0, square),
        row(h4.mem, Buf::CwKBeta, 0, size),
        row(h4.mem, Buf::CwCumDecayExp, 0, l * heads),
        row(h4.mem, Buf::RecurState, 0, state_len(g)),
    ];
    assert(used =~= inputs);
    assert(row(h5.mem, Buf::CwVNew, 0, wide) =~= t.values);
    let out_inputs = seq![t.q, t.decay, state, t.scores, t.values];
    let out_used = seq![
        row(h5.mem, Buf::CwQNorm, 0, size),
        row(h5.mem, Buf::CwCumDecayExp, 0, l * heads),
        row(h5.mem, Buf::RecurState, 0, state_len(g)),
        row(h5.mem, Buf::CwKq, 0, square),
        row(h5.mem, Buf::CwVNew, 0, wide),
    ];
    assert(out_used =~= out_inputs);
    assert(row(h6.mem, Buf::GdnY, from * v, l * v) =~= tile_readout(m, g, l, state, t));
    let left_inputs = seq![state, t.k, t.decay, t.state_decay, t.values];
    let left_used = seq![
        row(h6.mem, Buf::RecurState, 0, state_len(g)),
        row(h6.mem, Buf::CwKNorm, 0, size),
        row(h6.mem, Buf::CwCumDecayExp, 0, l * heads),
        row(h6.mem, Buf::CwStateDecay, 0, l * heads),
        row(h6.mem, Buf::CwVNew, 0, wide),
    ];
    assert(left_used =~= left_inputs);
    assert(held_state(u.mem, g) =~= tile_left(m, g, state, t));
    assert forall|i: int| !(from * v <= i < from * v + l * v) implies #[trigger] (u.mem)(
        Buf::GdnY,
        i,
    ) == (h.mem)(Buf::GdnY, i) by {
        lemma_keeps_element(m, h, ops[0], Buf::GdnY, i);
        lemma_keeps_element(m, h1, ops[1], Buf::GdnY, i);
        lemma_keeps_element(m, h2, ops[2], Buf::GdnY, i);
        lemma_keeps_element(m, h3, ops[3], Buf::GdnY, i);
        lemma_keeps_element(m, h4, ops[4], Buf::GdnY, i);
        lemma_keeps_element(m, h6, ops[6], Buf::GdnY, i);
    }
}

/// Consecutive rows, one after the other.
pub open spec fn block<T>(f: spec_fn(int) -> Seq<T>, from: int, n: int, width: int) -> Seq<T> {
    each_head(n, width, |i: int| f(from + i))
}

/// What the recurrence of a chunk reads, row by row.
#[verifier::reject_recursive_types(T)]
pub struct Rows<T> {
    pub conv: spec_fn(int) -> Seq<T>,
    pub beta: spec_fn(int) -> Seq<T>,
    pub decay: spec_fn(int) -> Seq<T>,
}

/// A tile of a chunk, from the state that the tiles before it left.
pub open spec fn tile_of<T>(
    m: Machine<T>,
    g: GdnConfig,
    state: Seq<T>,
    rows: Rows<T>,
    chunk_len: int,
    t: int,
) -> Tile<T> {
    let (from, len) = (tile_start(t), tile_len(chunk_len, t));
    tile(
        m,
        g,
        len,
        state,
        block(rows.conv, from, len, g.conv_dim as int),
        block(rows.beta, from, len, g.num_v_heads as int),
        block(rows.decay, from, len, g.num_v_heads as int),
    )
}

/// The state before a tile of a chunk.
pub open spec fn state_at<T>(
    m: Machine<T>,
    g: GdnConfig,
    before: Seq<T>,
    rows: Rows<T>,
    chunk_len: int,
    t: nat,
) -> Seq<T>
    decreases t,
{
    if t == 0 {
        before
    } else {
        let s = state_at(m, g, before, rows, chunk_len, (t - 1) as nat);
        tile_left(m, g, s, tile_of(m, g, s, rows, chunk_len, t - 1))
    }
}

/// A tile's part of a chunk's readout.
pub open spec fn readout_of<T>(
    m: Machine<T>,
    g: GdnConfig,
    before: Seq<T>,
    rows: Rows<T>,
    chunk_len: int,
    t: int,
) -> Seq<T> {
    let s = state_at(m, g, before, rows, chunk_len, t as nat);
    tile_readout(m, g, tile_len(chunk_len, t), s, tile_of(m, g, s, rows, chunk_len, t))
}

/// The buffers hold a chunk's rows.
pub open spec fn holds_rows<T>(mem: Memory<T>, g: GdnConfig, rows: Rows<T>, n: int) -> bool {
    forall|r: int|
        0 <= r < n ==> {
            &&& #[trigger] (rows.conv)(r) == row(
                mem,
                Buf::GdnConvOut,
                r * g.conv_dim,
                g.conv_dim as int,
            )
            &&& (rows.beta)(r) == row(
                mem,
                Buf::GdnBeta,
                r * g.num_v_heads,
                g.num_v_heads as int,
            )
            &&& (rows.decay)(r) == row(mem, Buf::GdnG, r * g.num_v_heads, g.num_v_heads as int)
        }
}

/// Rows of a chunk, taken together.
proof fn lemma_block<T>(
    mem: Memory<T>,
    buf: Buf,
    f: spec_fn(int) -> Seq<T>,
    from: int,
    n: int,
    width: int,
)
    requires
        0 <= from,
        0 <= n,
        0 <= width,
        forall|r: int|
            from <= r < from + n ==> #[trigger] f(r) == row(mem, buf, r * width, width),
    ensures
        row(mem, buf, from * width, n * width) == block(f, from, n, width),
{
    let g = |i: int| f(from + i);
    assert forall|i: int| 0 <= i < n implies #[trigger] g(i) == row(
        mem,
        buf,
        from * width + i * width,
        width,
    ) by {
        assert(f(from + i) == row(mem, buf, (from + i) * width, width));
        assert((from + i) * width == from * width + i * width) by (nonlinear_arith);
    }
    lemma_heads_make_a_row(mem, buf, from * width, n, width, g);
}

/// The operations of tiles change nothing else.
pub proof fn lemma_tiles_change(g: GdnConfig, chunk_len: int, k: nat, b: Buf)
    requires
        b == Buf::GdnConvOut || b == Buf::GdnBeta || b == Buf::GdnG || b == Buf::GdnZ || b == Buf::X
            || b == Buf::ConvState,
    ensures
        forall|i: int|
            0 <= i < tiles_ops(g, chunk_len, k).len() ==> !changes(
                #[trigger] tiles_ops(g, chunk_len, k)[i],
                b,
            ),
    decreases k,
{
    if k > 0 {
        lemma_tiles_change(g, chunk_len, (k - 1) as nat, b);
        let less = tiles_ops(g, chunk_len, (k - 1) as nat);
        let last = tile_ops(
            g,
            dispatch_for(g),
            tile_start(k - 1),
            tile_len(chunk_len, k - 1) as u32,
        );
        let all = tiles_ops(g, chunk_len, k);
        assert forall|i: int| 0 <= i < all.len() implies !changes(#[trigger] all[i], b) by {
            if i < less.len() {
                assert(all[i] == less[i]);
            } else {
                assert(all[i] == last[i - less.len()]);
            }
        }
    }
}

/// The first `k` tiles of a chunk.
proof fn lemma_tiles<T>(
    m: Machine<T>,
    h: Held<T>,
    g: GdnConfig,
    rows: Rows<T>,
    chunk_len: int,
    k: nat,
)
    requires
        consistent(g),
        0 < chunk_len <= u32::MAX,
        k <= tile_count(chunk_len),
        chunk_len * g.conv_dim <= u32::MAX,
        chunk_len * g.num_v_heads <= u32::MAX,
        chunk_len * g.value_dim <= u32::MAX,
        holds_rows(h.mem, g, rows, chunk_len),
    ensures
        ({
            let u = done(m, h, tiles_ops(g, chunk_len, k));
            let before = held_state(h.mem, g);
            let v = g.value_dim as int;
            &&& held_state(u.mem, g) == state_at(m, g, before, rows, chunk_len, k)
            &&& forall|t: int|
                #![trigger readout_of(m, g, before, rows, chunk_len, t)]
                0 <= t < k ==> row(
                    u.mem,
                    Buf::GdnY,
                    tile_start(t) * v,
                    tile_len(chunk_len, t) * v,
                ) == readout_of(m, g, before, rows, chunk_len, t)
        }),
    decreases k,
{
    if k > 0 {
        let p = (k - 1) as nat;
        lemma_tiles(m, h, g, rows, chunk_len, p);
        law_tiles_cover_the_chunk(chunk_len, p as int);
        let less = tiles_ops(g, chunk_len, p);
        let h1 = done(m, h, less);
        let (from, len) = (tile_start(p as int), tile_len(chunk_len, p as int));
        let last = tile_ops(g, dispatch_for(g), from, len as u32);
        lemma_in_turn(m, h, less, last);
        let u = done(m, h1, last);
        let (w, n, v) = (g.conv_dim as int, g.num_v_heads as int, g.value_dim as int);
        assert((from + len) * w <= chunk_len * w && (from + len) * n <= chunk_len * n && (from
            + len) * v <= chunk_len * v) by (nonlinear_arith)
            requires
                from + len <= chunk_len,
                0 <= w,
                0 <= n,
                0 <= v,
        ;
        lemma_tile(m, h1, g, from, len as u32);
        lemma_tiles_change(g, chunk_len, p, Buf::GdnConvOut);
        lemma_tiles_change(g, chunk_len, p, Buf::GdnBeta);
        lemma_tiles_change(g, chunk_len, p, Buf::GdnG);
        lemma_keeps_all(m, h, less, Buf::GdnConvOut, from * w, len * w);
        lemma_keeps_all(m, h, less, Buf::GdnBeta, from * n, len * n);
        lemma_keeps_all(m, h, less, Buf::GdnG, from * n, len * n);
        assert forall|r: int| from <= r < from + len implies #[trigger] (rows.conv)(r) == row(
            h.mem,
            Buf::GdnConvOut,
            r * w,
            w,
        ) by {}
        assert forall|r: int| from <= r < from + len implies #[trigger] (rows.beta)(r) == row(
            h.mem,
            Buf::GdnBeta,
            r * n,
            n,
        ) by {
            let c = (rows.conv)(r);
        }
        assert forall|r: int| from <= r < from + len implies #[trigger] (rows.decay)(r) == row(
            h.mem,
            Buf::GdnG,
            r * n,
            n,
        ) by {
            let c = (rows.conv)(r);
        }
        lemma_block(h.mem, Buf::GdnConvOut, rows.conv, from, len, w);
        lemma_block(h.mem, Buf::GdnBeta, rows.beta, from, len, n);
        lemma_block(h.mem, Buf::GdnG, rows.decay, from, len, n);
        let before = held_state(h.mem, g);
        assert forall|t: int|
            #![trigger readout_of(m, g, before, rows, chunk_len, t)]
            0 <= t < k implies row(
            u.mem,
            Buf::GdnY,
            tile_start(t) * v,
            tile_len(chunk_len, t) * v,
        ) == readout_of(m, g, before, rows, chunk_len, t) by {
            if t < p {
                law_tiles_cover_the_chunk(chunk_len, t);
                let (a, l) = (tile_start(t), tile_len(chunk_len, t));
                assert(a + l <= from);
                assert(a * v + l * v <= from * v) by (nonlinear_arith)
                    requires
                        a + l <= from,
                        0 <= v,
                ;
                assert(row(u.mem, Buf::GdnY, a * v, l * v) =~= row(
                    h1.mem,
                    Buf::GdnY,
                    a * v,
                    l * v,
                ));
            }
        }
    }
}

/// The rows that a chunk's recurrence reads.
pub open spec fn rows_of<T>(
    k: Machine<T>,
    c: ConfigModel,
    before: Seq<T>,
    xs: spec_fn(int) -> Seq<T>,
) -> Rows<T> {
    Rows {
        conv: |r: int| convolved(k, c, before, xs, r),
        beta: |r: int| strengths(k, c, xs(r)),
        decay: |r: int| decays(k, c, xs(r)),
    }
}

/// A chunk through a linear-attention layer: the history slides past all its
/// tokens, the recurrence carries the layer's state from tile to tile past
/// all of them, and every row's residual gets the readout of its own place in
/// its own tile, which starts from the state that the tiles before it left.
pub proof fn law_chunk_is_read_in<T>(
    k: Machine<T>,
    h: Held<T>,
    c: ConfigModel,
    rows: u32,
    scoped: bool,
    captured: bool,
    t: int,
    r: int,
)
    requires
        dims_fit(c, rows as int),
        consistent(c.gdn),
        0 <= t < tile_count(rows as int),
        tile_start(t) <= r < tile_start(t) + tile_len(rows as int, t),
    ensures
        ({
            let g = c.gdn;
            let v = g.value_dim as int;
            let u = done(k, h, ops_of(gdn_chunk_steps(c, rows, scoped, captured)));
            let xs = tokens(h, c);
            let before = held_history(h.mem, c);
            let inputs = rows_of(k, c, before, xs);
            let state = held_state(h.mem, g);
            let n = rows as int;
            &&& held_history(u.mem, c) == history_after(k, c, before, xs, n)
            &&& held_state(u.mem, g) == state_at(k, g, state, inputs, n, tile_count(n) as nat)
            &&& residual(u, c.embedding_length, r) == read_in(
                k,
                c,
                out_gate(k, c, xs(r)),
                part(readout_of(k, g, state, inputs, n, t), (r - tile_start(t)) * v, v),
                xs(r),
            )
        }),
{
    let g = c.gdn;
    let n = rows as int;
    let v = g.value_dim as int;
    lemma_gdn_chunk_ops(c, rows, scoped, captured);
    law_tiles_cover_the_chunk(n, t);
    lemma_tiles_inside(n, t);
    let a = norm_ops(c, rows) + (chunk_qkv_op(c, rows) + chunk_conv_ops(c, rows));
    let b = chunkwise_ops(g, n);
    let d = chunk_gate_ops(c, rows) + chunk_ssm_out_op(c, rows) + chunk_gdn_add_op(c, rows);
    lemma_in_turn(k, h, a + b, d);
    lemma_in_turn(k, h, a, b);
    let h1 = done(k, h, a);
    let h2 = done(k, h1, b);
    let u = done(k, h2, d);
    let xs = tokens(h, c);
    let before = held_history(h.mem, c);
    let inputs = rows_of(k, c, before, xs);
    law_chunk_convolves_every_row(k, h, c, rows, r);
    assert forall|i: int| 0 <= i < n implies {
        &&& #[trigger] (inputs.conv)(i) == row(
            h1.mem,
            Buf::GdnConvOut,
            i * g.conv_dim,
            g.conv_dim as int,
        )
        &&& (inputs.beta)(i) == row(h1.mem, Buf::GdnBeta, i * g.num_v_heads, g.num_v_heads as int)
        &&& (inputs.decay)(i) == row(h1.mem, Buf::GdnG, i * g.num_v_heads, g.num_v_heads as int)
    } by {
        law_chunk_convolves_every_row(k, h, c, rows, i);
    }
    let hidden = c.embedding_length as int;
    let hist = super::gdn::history_len(c);
    lemma_keeps_all(k, h, a, Buf::RecurState, 0, state_len(g));
    lemma_keeps_all(k, h, a, Buf::X, r * hidden, hidden);
    lemma_tiles(k, h1, g, inputs, n, tile_count(n) as nat);
    lemma_tiles_change(g, n, tile_count(n) as nat, Buf::GdnZ);
    lemma_tiles_change(g, n, tile_count(n) as nat, Buf::X);
    lemma_tiles_change(g, n, tile_count(n) as nat, Buf::ConvState);
    lemma_keeps_all(k, h1, b, Buf::GdnZ, r * v, v);
    lemma_keeps_all(k, h1, b, Buf::X, r * hidden, hidden);
    lemma_keeps_all(k, h1, b, Buf::ConvState, 0, hist);
    lemma_reads_in(k, h2, c, rows, r, true);
    lemma_keeps_all(k, h2, d, Buf::RecurState, 0, state_len(g));
    lemma_keeps_all(k, h2, d, Buf::ConvState, 0, hist);
    let state = held_state(h.mem, g);
    let (from, len) = (tile_start(t), tile_len(n, t));
    let whole = readout_of(k, g, state, inputs, n, t);
    assert(row(h2.mem, Buf::GdnY, from * v, len * v) == whole);
    lemma_row_inside(r - from, len, v);
    assert(r * v == from * v + (r - from) * v) by (nonlinear_arith);
    let y = row(h2.mem, Buf::GdnY, r * v, v);
    assert forall|j: int| 0 <= j < v implies #[trigger] y[j] == whole[(r - from) * v + j] by {
        assert(row(h2.mem, Buf::GdnY, from * v, len * v)[(r - from) * v + j] == (h2.mem)(
            Buf::GdnY,
            from * v + ((r - from) * v + j),
        ));
    }
    assert(y =~= part(whole, (r - from) * v, v));
}

/// A tile ends inside its chunk.
proof fn lemma_tiles_inside(chunk_len: int, t: int)
    requires
        0 <= t < tile_count(chunk_len),
        0 <= chunk_len,
    ensures
        0 <= tile_start(t),
        tile_start(t) + tile_len(chunk_len, t) <= chunk_len,
{
}

} // verus!
