//! Queries, keys and values of a token, head by head.

use super::{after, lemma_norm_row, lemma_put_row, lemma_row_inside, normed, row, Held, Machine};
use crate::qwen35::cache::effect::Memory;
use crate::qwen35::config::ConfigModel;
use crate::qwen35::forward::plan::{At, Buf, Eps, Op};
use vstd::prelude::*;

verus! {

/// One head's part of a row.
pub open spec fn head<T>(s: Seq<T>, head_dim: int, n: int) -> Seq<T> {
    Seq::new(head_dim as nat, |j: int| s[n * head_dim + j])
}

/// A row whose every head was replaced.
pub open spec fn each_head<T>(
    heads: int,
    head_dim: int,
    f: spec_fn(int) -> Seq<T>,
) -> Seq<T> {
    Seq::new((heads * head_dim) as nat, |i: int| f(i / head_dim)[i % head_dim])
}

/// A rotated head.
pub open spec fn rotated<T>(k: Machine<T>, c: ConfigModel, pos: int, s: Seq<T>) -> Seq<T> {
    Seq::new(
        s.len(),
        |j: int| (k.rotate)(c.rope_dim_count, c.rope_freq_base, pos, s, j),
    )
}

/// The heads of a row, normalised and rotated to a position.
pub open spec fn turned<T>(
    k: Machine<T>,
    c: ConfigModel,
    norm: Buf,
    heads: int,
    pos: int,
    s: Seq<T>,
) -> Seq<T> {
    each_head(
        heads,
        c.head_dim as int,
        |n: int| rotated(k, c, pos, normed(k, norm, Eps::Rms, head(s, c.head_dim as int, n))),
    )
}

/// A row is what its heads are.
pub proof fn lemma_heads_make_a_row<T>(
    mem: Memory<T>,
    buf: Buf,
    base: int,
    heads: int,
    head_dim: int,
    f: spec_fn(int) -> Seq<T>,
)
    requires
        0 <= heads,
        0 <= head_dim,
        forall|n: int|
            0 <= n < heads ==> #[trigger] f(n) == row(mem, buf, base + n * head_dim, head_dim),
    ensures
        row(mem, buf, base, heads * head_dim) == each_head(heads, head_dim, f),
{
    let got = row(mem, buf, base, heads * head_dim);
    assert(0 <= heads * head_dim) by (nonlinear_arith)
        requires
            0 <= heads,
            0 <= head_dim,
    ;
    assert forall|i: int| 0 <= i < heads * head_dim implies #[trigger] got[i] == f(
        i / head_dim,
    )[i % head_dim] by {
        let n = i / head_dim;
        assert(head_dim > 0) by (nonlinear_arith)
            requires
                0 <= i < heads * head_dim,
                0 <= head_dim,
        ;
        vstd::arithmetic::div_mod::lemma_fundamental_div_mod(i, head_dim);
        assert(head_dim * n == n * head_dim) by (nonlinear_arith);
        assert(0 <= n < heads) by (nonlinear_arith)
            requires
                n == i / head_dim,
                0 <= i < heads * head_dim,
                0 < head_dim,
        ;
        assert(f(n) == row(mem, buf, base + n * head_dim, head_dim));
    }
    assert(got =~= each_head(heads, head_dim, f));
}

/// Where a head of a row of several is.
pub proof fn lemma_head_place(r: int, heads: int, head_dim: int, n: int)
    requires
        0 <= r,
        0 <= n < heads,
        0 <= head_dim,
    ensures
        (r * heads + n) * head_dim == r * (heads * head_dim) + n * head_dim,
        (r * heads + n) / heads == r,
        0 <= n * head_dim,
        n * head_dim + head_dim <= heads * head_dim,
        0 <= r * heads + n,
{
    super::lemma_row_place(r, heads, n);
    lemma_row_inside(n, heads, head_dim);
    assert((r * heads + n) * head_dim == r * (heads * head_dim) + n * head_dim)
        by (nonlinear_arith);
    assert(0 <= r * heads) by (nonlinear_arith)
        requires
            0 <= r,
            0 <= heads,
    ;
}

/// A row before and after its heads were normalised.
pub proof fn lemma_normed_heads<T>(
    k: Machine<T>,
    h: Held<T>,
    buf: Buf,
    norm: Buf,
    rows: u32,
    heads: u32,
    head_dim: u32,
    eps: Eps,
    r: int,
)
    requires
        0 <= r < rows,
        rows * heads <= u32::MAX,
    ensures
        ({
            let op = Op::Rmsnorm {
                x: At { buf, offset: 0 },
                weight: norm,
                out: At { buf, offset: 0 },
                rows: (rows * heads) as u32,
                cols: head_dim,
                eps,
            };
            let width = heads * head_dim;
            let s = row(h.mem, buf, r * width, width);
            row(after(k, h, op).mem, buf, r * width, width) == each_head(
                heads as int,
                head_dim as int,
                |n: int| normed(k, norm, eps, head(s, head_dim as int, n)),
            )
        }),
{
    let at = At { buf, offset: 0 };
    let op = Op::Rmsnorm {
        x: at,
        weight: norm,
        out: at,
        rows: (rows * heads) as u32,
        cols: head_dim,
        eps,
    };
    let hd = head_dim as int;
    let width = heads * head_dim;
    let s = row(h.mem, buf, r * width, width);
    let f = |n: int| normed(k, norm, eps, head(s, hd, n));
    let h1 = after(k, h, op);
    assert forall|n: int| 0 <= n < heads implies #[trigger] f(n) == row(
        h1.mem,
        buf,
        r * width + n * hd,
        hd,
    ) by {
        lemma_head_place(r, heads as int, hd, n);
        assert(r * heads + n < rows * heads) by (nonlinear_arith)
            requires
                0 <= r < rows,
                0 <= n < heads,
        ;
        lemma_norm_row(k, h, at, norm, at, (rows * heads) as u32, head_dim, eps, r * heads + n);
        assert(head(s, hd, n) =~= row(h.mem, buf, r * width + n * hd, hd));
    }
    lemma_heads_make_a_row(h1.mem, buf, r * width, heads as int, hd, f);
}

/// A row before and after its heads were rotated.
pub proof fn lemma_rotated_heads<T>(
    k: Machine<T>,
    h: Held<T>,
    c: ConfigModel,
    buf: Buf,
    rows: u32,
    heads: u32,
    pos: u32,
    r: int,
)
    requires
        0 <= r < rows,
        rows * heads <= u32::MAX,
    ensures
        ({
            let op = Op::RopePartial {
                x: At { buf, offset: 0 },
                tokens: rows,
                heads,
                head_dim: c.head_dim,
                rot_dim: c.rope_dim_count,
                freq_base: c.rope_freq_base,
                pos_base: pos,
            };
            let width = heads * c.head_dim;
            let s = row(h.mem, buf, r * width, width);
            row(after(k, h, op).mem, buf, r * width, width) == each_head(
                heads as int,
                c.head_dim as int,
                |n: int| rotated(k, c, pos + r, head(s, c.head_dim as int, n)),
            )
        }),
{
    let at = At { buf, offset: 0 };
    let op = Op::RopePartial {
        x: at,
        tokens: rows,
        heads,
        head_dim: c.head_dim,
        rot_dim: c.rope_dim_count,
        freq_base: c.rope_freq_base,
        pos_base: pos,
    };
    let hd = c.head_dim as int;
    let width = heads * c.head_dim;
    let s = row(h.mem, buf, r * width, width);
    let f = |n: int| rotated(k, c, pos + r, head(s, hd, n));
    let h1 = after(k, h, op);
    let g = |q: int, j: int|
        (k.rotate)(
            c.rope_dim_count,
            c.rope_freq_base,
            pos + q / heads as int,
            row(h.mem, buf, 0 + q * c.head_dim, hd),
            j,
        );
    assert forall|n: int| 0 <= n < heads implies #[trigger] f(n) == row(
        h1.mem,
        buf,
        r * width + n * hd,
        hd,
    ) by {
        lemma_head_place(r, heads as int, hd, n);
        assert(r * heads + n < rows * heads) by (nonlinear_arith)
            requires
                0 <= r < rows,
                0 <= n < heads,
        ;
        lemma_put_row(h.mem, at, rows * heads, hd, g, r * heads + n);
        assert(head(s, hd, n) =~= row(h.mem, buf, r * width + n * hd, hd));
        assert(row(h1.mem, buf, r * width + n * hd, hd) =~= f(n));
    }
    lemma_heads_make_a_row(h1.mem, buf, r * width, heads as int, hd, f);
}

/// Heads that were replaced twice.
pub proof fn lemma_head_of_each<T>(heads: int, head_dim: int, f: spec_fn(int) -> Seq<T>, n: int)
    requires
        0 <= n < heads,
        0 <= head_dim,
        f(n).len() == head_dim,
    ensures
        head(each_head(heads, head_dim, f), head_dim, n) == f(n),
{
    lemma_row_inside(n, heads, head_dim);
    let s = each_head(heads, head_dim, f);
    assert forall|j: int| 0 <= j < head_dim implies #[trigger] head(s, head_dim, n)[j] == f(
        n,
    )[j] by {
        super::lemma_row_place(n, head_dim, j);
    }
    assert(head(s, head_dim, n) =~= f(n));
}

} // verus!
