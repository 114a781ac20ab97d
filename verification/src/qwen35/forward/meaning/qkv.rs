//! What a full-attention layer projects out of a token's residual.

use super::heads::{
    each_head, head, lemma_head_of_each, lemma_head_place, lemma_heads_make_a_row,
    lemma_normed_heads, lemma_rotated_heads, rotated, turned,
};
use super::{
    after, done, lemma_four, lemma_in_turn, lemma_keeps, lemma_matmul_row, lemma_matvec_row,
    lemma_norm_row, lemma_one, lemma_put_row, lemma_row_inside, lemma_three, lemma_two, normed,
    projected, residual, row, Held, Machine,
};
use crate::qwen35::cache::effect::Memory;
use crate::qwen35::config::ConfigModel;
use crate::qwen35::forward::attention::{head_ops, norm_ops, project_ops, split_ops};
use crate::qwen35::forward::attention_chunk::{chunk_project_ops, chunk_qkv_ops, chunk_split_ops};
use crate::qwen35::forward::dims::{dims_fit, kv_dim, lemma_widths, q_dim, q_out};
use crate::qwen35::forward::plan::{start, Buf, Eps, Linear, Op};
use vstd::prelude::*;

verus! {

/// What every projection of an attention layer reads.
pub open spec fn attn_input<T>(k: Machine<T>, x: Seq<T>) -> Seq<T> {
    normed(k, Buf::AttnNorm, Eps::Rms, x)
}

/// A token's key: the key weight's projection, head by head normalised and
/// rotated to the token's position.
pub open spec fn key<T>(k: Machine<T>, c: ConfigModel, pos: int, x: Seq<T>) -> Seq<T> {
    turned(
        k,
        c,
        Buf::AttnKNorm,
        c.head_count_kv as int,
        pos,
        projected(k, Linear::AttnK, kv_dim(c), attn_input(k, x)),
    )
}

/// A token's value: the value weight's projection.
pub open spec fn value<T>(k: Machine<T>, c: ConfigModel, x: Seq<T>) -> Seq<T> {
    projected(k, Linear::AttnV, kv_dim(c), attn_input(k, x))
}

/// The query projection. With an output gate every head's query is followed
/// by its gate.
pub open spec fn raw_query<T>(k: Machine<T>, c: ConfigModel, gated: bool, x: Seq<T>) -> Seq<T> {
    projected(k, Linear::AttnQ, q_out(c, gated), attn_input(k, x))
}

/// How far apart two heads' queries are.
pub open spec fn query_stride(c: ConfigModel, gated: bool) -> int {
    if gated {
        2 * c.head_dim
    } else {
        c.head_dim as int
    }
}

/// One field of every head of a row.
pub open spec fn field<T>(c: ConfigModel, stride: int, offset: int, s: Seq<T>) -> Seq<T> {
    each_head(
        c.head_count as int,
        c.head_dim as int,
        |n: int| Seq::new(c.head_dim as nat, |j: int| s[n * stride + offset + j]),
    )
}

/// A token's query, normalised and rotated like its key.
pub open spec fn query<T>(k: Machine<T>, c: ConfigModel, gated: bool, pos: int, x: Seq<T>) -> Seq<
    T,
> {
    turned(
        k,
        c,
        Buf::AttnQNorm,
        c.head_count as int,
        pos,
        field(c, query_stride(c, gated), 0, raw_query(k, c, gated, x)),
    )
}

/// A token's output gate.
pub open spec fn gate<T>(k: Machine<T>, c: ConfigModel, x: Seq<T>) -> Seq<T> {
    field(c, query_stride(c, true), c.head_dim as int, raw_query(k, c, true, x))
}

/// The buffers hold a token's query, key, value and gate as its row `r`.
pub open spec fn holds_token<T>(
    k: Machine<T>,
    c: ConfigModel,
    gated: bool,
    mem: Memory<T>,
    r: int,
    pos: int,
    x: Seq<T>,
) -> bool {
    &&& row(mem, Buf::AttnQ, r * q_dim(c), q_dim(c)) == query(k, c, gated, pos, x)
    &&& row(mem, Buf::AttnK, r * kv_dim(c), kv_dim(c)) == key(k, c, pos, x)
    &&& row(mem, Buf::AttnV, r * kv_dim(c), kv_dim(c)) == value(k, c, x)
    &&& gated ==> row(mem, Buf::AttnGate, r * q_dim(c), q_dim(c)) == gate(k, c, x)
}

proof fn lemma_same_heads<T>(
    heads: int,
    head_dim: int,
    f: spec_fn(int) -> Seq<T>,
    g: spec_fn(int) -> Seq<T>,
)
    requires
        0 <= heads,
        0 <= head_dim,
        forall|n: int| 0 <= n < heads ==> #[trigger] f(n) == g(n),
    ensures
        each_head(heads, head_dim, f) == each_head(heads, head_dim, g),
{
    let a = each_head(heads, head_dim, f);
    let b = each_head(heads, head_dim, g);
    assert forall|i: int| 0 <= i < a.len() implies #[trigger] a[i] == b[i] by {
        assert(0 < head_dim && 0 <= i / head_dim < heads) by (nonlinear_arith)
            requires
                0 <= i < heads * head_dim,
                0 <= head_dim,
        ;
        assert(f(i / head_dim) == g(i / head_dim));
    }
    assert(a =~= b);
}

proof fn lemma_turned<T>(
    k: Machine<T>,
    c: ConfigModel,
    norm: Buf,
    heads: int,
    pos: int,
    s: Seq<T>,
)
    requires
        0 <= heads,
    ensures
        ({
            let hd = c.head_dim as int;
            let f = |n: int| normed(k, norm, Eps::Rms, head(s, hd, n));
            let t = each_head(heads, hd, f);
            each_head(heads, hd, |n: int| rotated(k, c, pos, head(t, hd, n))) == turned(
                k,
                c,
                norm,
                heads,
                pos,
                s,
            )
        }),
{
    let hd = c.head_dim as int;
    let f = |n: int| normed(k, norm, Eps::Rms, head(s, hd, n));
    let t = each_head(heads, hd, f);
    let a = |n: int| rotated(k, c, pos, head(t, hd, n));
    let b = |n: int| rotated(k, c, pos, normed(k, norm, Eps::Rms, head(s, hd, n)));
    assert forall|n: int| 0 <= n < heads implies #[trigger] a(n) == b(n) by {
        lemma_head_of_each(heads, hd, f, n);
    }
    lemma_same_heads(heads, hd, a, b);
}

/// Queries and keys after their norms and rotations.
proof fn lemma_heads_turned<T>(
    k: Machine<T>,
    h: Held<T>,
    c: ConfigModel,
    rows: u32,
    pos: u32,
    r: int,
)
    requires
        dims_fit(c, rows as int),
        0 <= r < rows,
    ensures
        ({
            let t = done(k, h, head_ops(c, rows, pos));
            let (q, kv) = (q_dim(c), kv_dim(c));
            &&& row(t.mem, Buf::AttnQ, r * q, q) == turned(
                k,
                c,
                Buf::AttnQNorm,
                c.head_count as int,
                pos + r,
                row(h.mem, Buf::AttnQ, r * q, q),
            )
            &&& row(t.mem, Buf::AttnK, r * kv, kv) == turned(
                k,
                c,
                Buf::AttnKNorm,
                c.head_count_kv as int,
                pos + r,
                row(h.mem, Buf::AttnK, r * kv, kv),
            )
            &&& forall|b: Buf, at: int, n: int|
                b != Buf::AttnQ && b != Buf::AttnK ==> #[trigger] row(t.mem, b, at, n) == row(
                    h.mem,
                    b,
                    at,
                    n,
                )
        }),
{
    broadcast use lemma_keeps;

    let ops = head_ops(c, rows, pos);
    lemma_four(k, h, ops);
    let h1 = after(k, h, ops[0]);
    let h2 = after(k, h1, ops[1]);
    let h3 = after(k, h2, ops[2]);
    let h4 = after(k, h3, ops[3]);
    let (q, kv) = (q_dim(c), kv_dim(c));
    lemma_normed_heads(
        k,
        h,
        Buf::AttnQ,
        Buf::AttnQNorm,
        rows,
        c.head_count,
        c.head_dim,
        Eps::Rms,
        r,
    );
    lemma_normed_heads(
        k,
        h1,
        Buf::AttnK,
        Buf::AttnKNorm,
        rows,
        c.head_count_kv,
        c.head_dim,
        Eps::Rms,
        r,
    );
    lemma_rotated_heads(k, h2, c, Buf::AttnQ, rows, c.head_count, pos, r);
    lemma_rotated_heads(k, h3, c, Buf::AttnK, rows, c.head_count_kv, pos, r);
    let sq = row(h.mem, Buf::AttnQ, r * q, q);
    let sk = row(h.mem, Buf::AttnK, r * kv, kv);
    lemma_turned(k, c, Buf::AttnQNorm, c.head_count as int, pos + r, sq);
    lemma_turned(k, c, Buf::AttnKNorm, c.head_count_kv as int, pos + r, sk);
}

/// One field of every head of a chunk's rows.
proof fn lemma_extracted<T>(
    k: Machine<T>,
    h: Held<T>,
    c: ConfigModel,
    gated: bool,
    dst: Buf,
    rows: u32,
    src_offset: u32,
    r: int,
)
    requires
        dims_fit(c, rows as int),
        2 * c.head_dim <= u32::MAX,
        0 <= r < rows,
        src_offset + c.head_dim <= query_stride(c, gated),
    ensures
        ({
            let op = Op::ExtractHeads {
                src: start(Buf::AttnQRaw),
                dst: start(dst),
                tokens: rows,
                heads: c.head_count,
                head_dim: c.head_dim,
                src_stride: query_stride(c, gated) as u32,
                src_offset,
            };
            row(after(k, h, op).mem, dst, r * q_dim(c), q_dim(c)) == field(
                c,
                query_stride(c, gated),
                src_offset as int,
                row(h.mem, Buf::AttnQRaw, r * q_out(c, gated), q_out(c, gated)),
            )
        }),
{
    let stride = query_stride(c, gated);
    let op = Op::ExtractHeads {
        src: start(Buf::AttnQRaw),
        dst: start(dst),
        tokens: rows,
        heads: c.head_count,
        head_dim: c.head_dim,
        src_stride: stride as u32,
        src_offset,
    };
    let hd = c.head_dim as int;
    let heads = c.head_count as int;
    let q = q_dim(c);
    let raw = row(h.mem, Buf::AttnQRaw, r * q_out(c, gated), q_out(c, gated));
    let f = |n: int| Seq::new(c.head_dim as nat, |j: int| raw[n * stride + src_offset + j]);
    let h1 = after(k, h, op);
    let g = |p: int, j: int|
        (h.mem)(Buf::AttnQRaw, 0 + p * (stride as u32) + src_offset + j);
    assert(q_out(c, gated) == heads * stride) by {
        assert(2 * (heads * hd) == heads * (2 * hd)) by (nonlinear_arith);
    }
    assert forall|n: int| 0 <= n < heads implies #[trigger] f(n) == row(
        h1.mem,
        dst,
        r * q + n * hd,
        hd,
    ) by {
        lemma_head_place(r, heads, hd, n);
        lemma_head_place(r, heads, stride, n);
        assert(r * heads + n < rows * heads) by (nonlinear_arith)
            requires
                0 <= r < rows,
                0 <= n < heads,
        ;
        lemma_put_row(h.mem, start(dst), rows * c.head_count, hd, g, r * heads + n);
        assert(row(h1.mem, dst, r * q + n * hd, hd) =~= f(n));
    }
    lemma_heads_make_a_row(h1.mem, dst, r * q, heads, hd, f);
}

/// Every row of a chunk gets its own query, key, value and gate, at its own
/// position, out of its own residual.
pub proof fn law_chunk_projects_every_row<T>(
    k: Machine<T>,
    h: Held<T>,
    c: ConfigModel,
    gated: bool,
    rows: u32,
    pos: u32,
    r: int,
)
    requires
        dims_fit(c, rows as int),
        2 * c.head_dim <= u32::MAX,
        0 <= r < rows,
    ensures
        ({
            let t = done(k, h, norm_ops(c, rows) + chunk_qkv_ops(c, gated, rows, pos));
            holds_token(
                k,
                c,
                gated,
                t.mem,
                r,
                pos + r,
                residual(h, c.embedding_length, r),
            )
        }),
{
    broadcast use lemma_keeps;

    lemma_widths(c, rows as int);
    let hidden = c.embedding_length;
    let x = residual(h, hidden, r);
    let (a, b) = (norm_ops(c, rows), chunk_project_ops(c, gated, rows));
    let (d, e) = (chunk_split_ops(c, gated, rows), head_ops(c, rows, pos));
    lemma_in_turn(k, h, a, b + d + e);
    let h1 = done(k, h, a);
    lemma_in_turn(k, h1, b + d, e);
    lemma_in_turn(k, h1, b, d);
    let h4 = done(k, h1, b);
    let h5 = done(k, h4, d);
    lemma_one(k, h, a);
    lemma_three(k, h1, b);
    let h2 = after(k, h1, b[0]);
    let h3 = after(k, h2, b[1]);
    let (qo, kv) = (q_out(c, gated) as u32, kv_dim(c) as u32);
    let xn = start(Buf::Xn);
    lemma_norm_row(k, h, start(Buf::X), Buf::AttnNorm, xn, rows, hidden, Eps::Rms, r);
    lemma_matmul_row(k, h1, Linear::AttnQ, xn, start(Buf::AttnQRaw), rows, qo, hidden, r);
    lemma_matmul_row(k, h2, Linear::AttnK, xn, start(Buf::AttnK), rows, kv, hidden, r);
    lemma_matmul_row(k, h3, Linear::AttnV, xn, start(Buf::AttnV), rows, kv, hidden, r);
    lemma_extracted(k, h4, c, gated, Buf::AttnQ, rows, 0, r);
    if gated {
        lemma_two(k, h4, d);
        let h6 = after(k, h4, d[0]);
        lemma_extracted(k, h6, c, gated, Buf::AttnGate, rows, c.head_dim, r);
    } else {
        lemma_one(k, h4, d);
    }
    lemma_heads_turned(k, h5, c, rows, pos, r);
}

/// A decoded token's heads, moved one after the other.
proof fn lemma_split<T>(k: Machine<T>, h: Held<T>, c: ConfigModel, gated: bool, heads: nat)
    requires
        dims_fit(c, 1),
        heads <= c.head_count,
    ensures
        ({
            let t = done(k, h, split_ops(gated, heads, c.head_dim));
            let hd = c.head_dim as int;
            let stride = query_stride(c, gated);
            &&& forall|n: int|
                #![trigger row(t.mem, Buf::AttnQ, n * hd, hd)]
                0 <= n < heads ==> row(t.mem, Buf::AttnQ, n * hd, hd) == row(
                    h.mem,
                    Buf::AttnQRaw,
                    n * stride,
                    hd,
                )
            &&& gated ==> forall|n: int|
                #![trigger row(t.mem, Buf::AttnGate, n * hd, hd)]
                0 <= n < heads ==> row(t.mem, Buf::AttnGate, n * hd, hd) == row(
                    h.mem,
                    Buf::AttnQRaw,
                    n * stride + hd,
                    hd,
                )
            &&& forall|b: Buf, at: int, n: int|
                b != Buf::AttnQ && b != Buf::AttnGate ==> #[trigger] row(t.mem, b, at, n) == row(
                    h.mem,
                    b,
                    at,
                    n,
                )
        }),
    decreases heads,
{
    broadcast use lemma_keeps;

    let hd = c.head_dim as int;
    let stride = query_stride(c, gated);
    let ops = split_ops(gated, heads, c.head_dim);
    if heads > 0 {
        let p = heads - 1;
        lemma_split(k, h, c, gated, p as nat);
        lemma_widths(c, 1);
        lemma_row_inside(p, c.head_count as int, hd);
        lemma_row_inside(p, c.head_count as int, stride);
        assert(c.head_count * (2 * hd) == 2 * (c.head_count * hd)) by (nonlinear_arith);
        let before = split_ops(gated, p as nat, c.head_dim);
        let t = done(k, h, before);
        let rest = ops.skip(before.len() as int);
        assert(ops =~= before + rest);
        lemma_in_turn(k, h, before, rest);
        let t1 = after(k, t, rest[0]);
        let u = done(k, h, ops);
        if gated {
            lemma_two(k, t, rest);
        } else {
            lemma_one(k, t, rest);
        }
        assert forall|n: int| 0 <= n < heads implies #[trigger] row(
            u.mem,
            Buf::AttnQ,
            n * hd,
            hd,
        ) == row(h.mem, Buf::AttnQRaw, n * stride, hd) by {
            if n < p {
                lemma_row_inside(n, p, hd);
                assert(row(t1.mem, Buf::AttnQ, n * hd, hd) =~= row(t.mem, Buf::AttnQ, n * hd, hd));
            } else {
                assert(row(t1.mem, Buf::AttnQ, n * hd, hd) =~= row(
                    t.mem,
                    Buf::AttnQRaw,
                    n * stride,
                    hd,
                ));
            }
        }
        if gated {
            assert forall|n: int| 0 <= n < heads implies #[trigger] row(
                u.mem,
                Buf::AttnGate,
                n * hd,
                hd,
            ) == row(h.mem, Buf::AttnQRaw, n * stride + hd, hd) by {
                if n < p {
                    lemma_row_inside(n, p, hd);
                    assert(row(u.mem, Buf::AttnGate, n * hd, hd) =~= row(
                        t1.mem,
                        Buf::AttnGate,
                        n * hd,
                        hd,
                    ));
                } else {
                    assert(row(u.mem, Buf::AttnGate, n * hd, hd) =~= row(
                        t1.mem,
                        Buf::AttnQRaw,
                        n * stride + hd,
                        hd,
                    ));
                }
            }
        }
    }
}

/// One field of every head of a token.
proof fn lemma_split_field<T>(
    mem: Memory<T>,
    raw: Memory<T>,
    c: ConfigModel,
    gated: bool,
    dst: Buf,
    offset: int,
)
    requires
        0 <= offset,
        offset + c.head_dim <= query_stride(c, gated),
        forall|n: int|
            #![trigger row(mem, dst, n * c.head_dim, c.head_dim as int)]
            0 <= n < c.head_count ==> row(mem, dst, n * c.head_dim, c.head_dim as int) == row(
                raw,
                Buf::AttnQRaw,
                n * query_stride(c, gated) + offset,
                c.head_dim as int,
            ),
    ensures
        row(mem, dst, 0, q_dim(c)) == field(
            c,
            query_stride(c, gated),
            offset,
            row(raw, Buf::AttnQRaw, 0, q_out(c, gated)),
        ),
{
    let stride = query_stride(c, gated);
    let hd = c.head_dim as int;
    let heads = c.head_count as int;
    let s = row(raw, Buf::AttnQRaw, 0, q_out(c, gated));
    let f = |n: int| Seq::new(c.head_dim as nat, |j: int| s[n * stride + offset + j]);
    assert(q_out(c, gated) == heads * stride) by {
        assert(2 * (heads * hd) == heads * (2 * hd)) by (nonlinear_arith);
    }
    assert forall|n: int| 0 <= n < heads implies #[trigger] f(n) == row(
        mem,
        dst,
        0 + n * hd,
        hd,
    ) by {
        lemma_row_inside(n, heads, stride);
        assert(row(mem, dst, n * hd, hd) == row(raw, Buf::AttnQRaw, n * stride + offset, hd));
        assert(f(n) =~= row(raw, Buf::AttnQRaw, n * stride + offset, hd));
    }
    lemma_heads_make_a_row(mem, dst, 0, heads, hd, f);
}

/// A decoded token gets the query, key, value and gate that a row of a chunk
/// at its position gets.
pub proof fn law_token_is_projected<T>(
    k: Machine<T>,
    h: Held<T>,
    c: ConfigModel,
    gated: bool,
    pos: u32,
)
    requires
        dims_fit(c, 1),
        2 * c.head_dim <= u32::MAX,
    ensures
        ({
            let ops = norm_ops(c, 1) + (project_ops(c, gated) + split_ops(
                gated,
                c.head_count as nat,
                c.head_dim,
            ) + head_ops(c, 1, pos));
            holds_token(
                k,
                c,
                gated,
                done(k, h, ops).mem,
                0,
                pos as int,
                residual(h, c.embedding_length, 0),
            )
        }),
{
    broadcast use lemma_keeps;

    lemma_widths(c, 1);
    let hidden = c.embedding_length;
    let (a, b) = (norm_ops(c, 1), project_ops(c, gated));
    let (d, e) = (split_ops(gated, c.head_count as nat, c.head_dim), head_ops(c, 1, pos));
    lemma_in_turn(k, h, a, b + d + e);
    let h1 = done(k, h, a);
    lemma_in_turn(k, h1, b + d, e);
    lemma_in_turn(k, h1, b, d);
    let h4 = done(k, h1, b);
    let h5 = done(k, h4, d);
    lemma_one(k, h, a);
    lemma_three(k, h1, b);
    let h2 = after(k, h1, b[0]);
    let h3 = after(k, h2, b[1]);
    let (qo, kv) = (q_out(c, gated) as u32, kv_dim(c) as u32);
    let xn = start(Buf::Xn);
    lemma_norm_row(k, h, start(Buf::X), Buf::AttnNorm, xn, 1, hidden, Eps::Rms, 0);
    lemma_matvec_row(k, h1, Linear::AttnQ, xn, start(Buf::AttnQRaw), qo, hidden);
    lemma_matvec_row(k, h2, Linear::AttnK, xn, start(Buf::AttnK), kv, hidden);
    lemma_matvec_row(k, h3, Linear::AttnV, xn, start(Buf::AttnV), kv, hidden);
    lemma_split(k, h4, c, gated, c.head_count as nat);
    lemma_split_field(h5.mem, h4.mem, c, gated, Buf::AttnQ, 0);
    if gated {
        lemma_split_field(h5.mem, h4.mem, c, gated, Buf::AttnGate, c.head_dim as int);
    }
    lemma_heads_turned(k, h5, c, 1, pos, 0);
}

} // verus!
