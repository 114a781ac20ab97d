//! What a full-attention layer leaves: the token's key and value in the
//! cache, and its attention over everything cached in the residual.

use super::qkv::{gate, key, law_chunk_projects_every_row, law_token_is_projected, query, value};
use super::{
    added, after, attended, caches, changes, dense_view, done, from, lemma_add_row, lemma_in_turn,
    lemma_keeps, lemma_matmul_row, lemma_matvec_row, lemma_one, lemma_put_row, lemma_row_inside,
    lemma_two, projected, residual, row, storing, zipped, CacheView, HeadShape, Held, Machine,
};
use crate::load_opts::KvDtype;
use crate::qwen35::cache::effect::{
    after_op, after_ops, lemma_row_by_head, lemma_slot_elements, rows_put, Grid, Memory,
};
use crate::qwen35::cache::hybrid::AttnCacheModel;
use crate::qwen35::cache::plane::plane_fits;
use crate::qwen35::cache::rows::{row_ops, slot_at};
use crate::qwen35::config::ConfigModel;
use crate::qwen35::forward::attention::{
    attend_ops, attention_steps, gate_ops, head_ops, lemma_attention_ops, norm_ops, out_ops,
    project_ops, split_ops,
};
use crate::qwen35::forward::attention_chunk::{
    chunk_attend_dense_ops, chunk_out_ops, chunk_qkv_ops, chunk_steps, lemma_chunk_ops,
};
use crate::qwen35::forward::dims::{dims_fit, kv_dim, lemma_widths, q_dim};
use crate::qwen35::forward::plan::{ops_of, start, At, Buf, Linear, Op};
use vstd::prelude::*;

verus! {

/// The heads of a model.
pub open spec fn shape(c: ConfigModel) -> HeadShape {
    HeadShape { n_heads: c.head_count, n_kv_heads: c.head_count_kv, head_dim: c.head_dim }
}

/// A token's attention over what is cached up to its own position.
pub open spec fn seen<T>(
    k: Machine<T>,
    c: ConfigModel,
    gated: bool,
    view: CacheView<T>,
    pos: int,
    x: Seq<T>,
) -> Seq<T> {
    Seq::new(
        q_dim(c) as nat,
        |j: int| (k.attend)(shape(c), view, pos + 1, query(k, c, gated, pos, x), j),
    )
}

/// A token's residual after a full-attention layer: its attention, gated
/// where there is a gate, projected and added.
pub open spec fn mixed_in<T>(
    k: Machine<T>,
    c: ConfigModel,
    gated: bool,
    view: CacheView<T>,
    pos: int,
    x: Seq<T>,
) -> Seq<T> {
    let o = seen(k, c, gated, view, pos, x);
    added(
        k,
        x,
        projected(
            k,
            Linear::AttnOutput,
            c.embedding_length as int,
            if gated {
                zipped(k.sigmoid_mul, o, gate(k, c, x))
            } else {
                o
            },
        ),
    )
}

/// A number as a cache stores it.
pub open spec fn stored<T>(k: Machine<T>, dtype: KvDtype, x: T) -> T {
    match dtype {
        KvDtype::F16 => (k.half)(x),
        KvDtype::F32 => x,
    }
}

/// What a row of a chunk or a token adds to its residual, once the cache is
/// up to date.
pub proof fn lemma_attends<T>(
    k: Machine<T>,
    h: Held<T>,
    t: Held<T>,
    c: ConfigModel,
    gated: bool,
    view: CacheView<T>,
    rows: u32,
    pos: int,
    r: int,
    x: Seq<T>,
    chunk: bool,
)
    requires
        dims_fit(c, rows as int),
        0 <= r < rows,
        !chunk ==> rows == 1,
        t.mem == attended(k, h.mem, shape(c), view, rows as int, pos),
        row(h.mem, Buf::AttnQ, r * q_dim(c), q_dim(c)) == query(k, c, gated, pos + r, x),
        gated ==> row(h.mem, Buf::AttnGate, r * q_dim(c), q_dim(c)) == gate(k, c, x),
        residual(h, c.embedding_length, r) == x,
    ensures
        ({
            let ops = if chunk {
                chunk_out_ops(c, gated, rows)
            } else {
                out_ops(c, gated)
            };
            let u = done(k, t, ops);
            residual(u, c.embedding_length, r) == mixed_in(k, c, gated, view, pos + r, x)
        }),
{
    broadcast use lemma_keeps;

    let q = q_dim(c);
    let hidden = c.embedding_length;
    lemma_widths(c, rows as int);
    lemma_row_inside(r, rows as int, q);
    lemma_row_inside(r, rows as int, hidden as int);
    let f = |r: int, j: int|
        (k.attend)(shape(c), view, pos + r + 1, row(h.mem, Buf::AttnQ, r * q, q), j);
    let concat = At { buf: Buf::AttnConcat, offset: 0 };
    lemma_put_row(h.mem, concat, rows as int, q, f, r);
    let o = seen(k, c, gated, view, pos + r, x);
    assert(row(t.mem, Buf::AttnConcat, r * q, q) =~= o);
    assert(residual(t, hidden, r) =~= x);
    if gated {
        assert(row(t.mem, Buf::AttnGate, r * q, q) =~= gate(k, c, x));
    }
    let ops = if chunk {
        chunk_out_ops(c, gated, rows)
    } else {
        out_ops(c, gated)
    };
    let g = gate_ops(c, gated, rows);
    let rest = ops.skip(g.len() as int);
    assert(ops =~= g + rest);
    lemma_in_turn(k, t, g, rest);
    let t1 = done(k, t, g);
    let z = if gated {
        zipped(k.sigmoid_mul, o, gate(k, c, x))
    } else {
        o
    };
    if gated {
        lemma_one(k, t, g);
        assert(row(t1.mem, Buf::AttnConcat, r * q, q) =~= zipped(
            k.sigmoid_mul,
            row(t.mem, Buf::AttnConcat, r * q, q),
            row(t.mem, Buf::AttnGate, r * q, q),
        ));
    }
    assert(row(t1.mem, Buf::AttnConcat, r * q, q) == z);
    assert(residual(t1, hidden, r) == x);
    lemma_two(k, t1, rest);
    let t2 = after(k, t1, rest[0]);
    if chunk {
        lemma_matmul_row(
            k,
            t1,
            Linear::AttnOutput,
            concat,
            start(Buf::AttnOut),
            rows,
            hidden,
            q as u32,
            r,
        );
    } else {
        lemma_matvec_row(
            k,
            t1,
            Linear::AttnOutput,
            concat,
            start(Buf::AttnOut),
            hidden,
            q as u32,
        );
    }
    lemma_add_row(
        k,
        t2,
        start(Buf::X),
        start(Buf::AttnOut),
        (rows * hidden) as u32,
        r * hidden,
        hidden as int,
    );
    let u = done(k, t, ops);
    assert(u == after(k, t2, rest[1]));
    assert(rest[1] == Op::AddInplace {
        x: start(Buf::X),
        y: start(Buf::AttnOut),
        n: (rows * hidden) as u32,
    });
    assert(residual(t2, hidden, r) == x);
    assert(residual(u, hidden, r) == mixed_in(k, c, gated, view, pos + r, x));
}

/// Where the element of a position is in a plane of `span` positions a head.
pub open spec fn place(span: int, head_dim: int, head: int, p: int, e: int) -> int {
    (head * span + p) * head_dim + e
}

pub proof fn lemma_place(g: Grid, head: int, p: int, e: int)
    requires
        0 <= head < g.heads,
        0 <= p < g.span,
        0 <= e < g.head_dim,
    ensures
        ({
            let at = place(g.span, g.head_dim, head, p, e);
            g.head_of(at) == head && g.slot_of(at) == p && g.elem_of(at) == e
        }),
{
    let at = place(g.span, g.head_dim, head, p, e);
    assert(at == slot_at(head, g.span, p, g.head_dim) + e) by (nonlinear_arith)
        requires
            at == (head * g.span + p) * g.head_dim + e,
            slot_at(head, g.span, p, g.head_dim) == head * g.span * g.head_dim + p * g.head_dim,
    ;
    lemma_slot_elements(g, head, p, at);
}

/// The operation moves an appended row out of the row buffers, or evicts.
pub open spec fn moves_rows(op: Op) -> bool {
    match op {
        Op::CastF16 { src, dst, .. } => (src.buf == Buf::AttnK || src.buf == Buf::AttnV)
            && caches(dst.buf),
        Op::CopyDevice { src, dst, .. } => (src.buf == Buf::AttnK || src.buf == Buf::AttnV)
            && caches(dst.buf),
        Op::ScatterKv { k_src, v_src, k_dst, v_dst, .. } => k_src.buf == Buf::AttnK && v_src.buf
            == Buf::AttnV && caches(k_dst) && caches(v_dst),
        Op::RotSim { .. } | Op::QuantizeEvictK { .. } | Op::QuantizeEvictV { .. } => true,
        _ => false,
    }
}

/// Moving rows into a cache, as a matter of the rows and the cache alone.
pub proof fn lemma_moved<T>(k: Machine<T>, h: Held<T>, ops: Seq<Op>)
    requires
        super::evicts_in_place(k),
        forall|i: int| 0 <= i < ops.len() ==> moves_rows(#[trigger] ops[i]),
    ensures
        done(k, h, ops).mem == after_ops(storing(k, h.mem), h.mem, ops, 0),
        forall|b: Buf, i: int|
            !caches(b) ==> #[trigger] (done(k, h, ops).mem)(b, i) == (h.mem)(b, i),
    decreases ops.len(),
{
    if ops.len() > 0 {
        let less = ops.drop_last();
        let op = ops.last();
        assert forall|i: int| 0 <= i < less.len() implies moves_rows(#[trigger] less[i]) by {
            assert(less[i] == ops[i]);
        }
        lemma_moved(k, h, less);
        assert(moves_rows(ops[ops.len() - 1]));
        let t = done(k, h, less);
        let d = storing(k, h.mem);
        assert(after_op(storing(k, t.mem), t.mem, op, 0) =~= after_op(d, t.mem, op, 0));
    }
}

pub proof fn lemma_row_ops_move(
    dtype: KvDtype,
    k_dst: Buf,
    v_dst: Buf,
    span: u32,
    slot: u32,
    heads: nat,
    head_dim: u32,
)
    requires
        caches(k_dst),
        caches(v_dst),
    ensures
        forall|i: int|
            0 <= i < row_ops(dtype, k_dst, v_dst, span, slot, heads, head_dim).len() ==> moves_rows(
                #[trigger] row_ops(dtype, k_dst, v_dst, span, slot, heads, head_dim)[i],
            ),
    decreases heads,
{
    if heads > 0 {
        let p = (heads - 1) as nat;
        lemma_row_ops_move(dtype, k_dst, v_dst, span, slot, p, head_dim);
        let less = row_ops(dtype, k_dst, v_dst, span, slot, p, head_dim);
        let all = row_ops(dtype, k_dst, v_dst, span, slot, heads, head_dim);
        assert forall|i: int| 0 <= i < all.len() implies moves_rows(#[trigger] all[i]) by {
            if i < less.len() {
                assert(all[i] == less[i]);
            }
        }
    }
}

/// A dense cache holds, at every position of a pass, the key and value of the
/// token there, and elsewhere what it held before.
pub open spec fn plane_holds<T>(
    k: Machine<T>,
    c: ConfigModel,
    dtype: KvDtype,
    max_seq: u32,
    before: Held<T>,
    now: Memory<T>,
    pos: u32,
    rows: u32,
    head: int,
    p: int,
    e: int,
) -> bool {
    let at = place(max_seq as int, c.head_dim as int, head, p, e);
    if pos <= p < pos + rows {
        let x = residual(before, c.embedding_length, p - pos);
        &&& now(Buf::PlaneK, at) == stored(k, dtype, key(k, c, p, x)[head * c.head_dim + e])
        &&& now(Buf::PlaneV, at) == stored(k, dtype, value(k, c, x)[head * c.head_dim + e])
    } else {
        &&& now(Buf::PlaneK, at) == (before.mem)(Buf::PlaneK, at)
        &&& now(Buf::PlaneV, at) == (before.mem)(Buf::PlaneV, at)
    }
}

/// The grid of a dense plane.
spec fn plane_grid(c: ConfigModel, max_seq: u32) -> Grid {
    Grid { heads: c.head_count_kv as int, span: max_seq as int, head_dim: c.head_dim as int }
}

/// Rows put into a plane are where their positions are.
proof fn lemma_plane_holds<T>(
    k: Machine<T>,
    c: ConfigModel,
    dtype: KvDtype,
    max_seq: u32,
    before: Held<T>,
    mid: Held<T>,
    pos: u32,
    rows: u32,
    head: int,
    p: int,
    e: int,
)
    requires
        dims_fit(c, rows as int),
        0 <= head < c.head_count_kv,
        0 <= p < max_seq,
        0 <= e < c.head_dim,
        pos + rows <= max_seq,
        (mid.mem)(Buf::PlaneK, place(max_seq as int, c.head_dim as int, head, p, e)) == (
        before.mem)(Buf::PlaneK, place(max_seq as int, c.head_dim as int, head, p, e)),
        (mid.mem)(Buf::PlaneV, place(max_seq as int, c.head_dim as int, head, p, e)) == (
        before.mem)(Buf::PlaneV, place(max_seq as int, c.head_dim as int, head, p, e)),
        pos <= p < pos + rows ==> {
            let x = residual(before, c.embedding_length, p - pos);
            let kv = kv_dim(c);
            &&& row(mid.mem, Buf::AttnK, (p - pos) * kv, kv) == key(k, c, p, x)
            &&& row(mid.mem, Buf::AttnV, (p - pos) * kv, kv) == value(k, c, x)
        },
    ensures
        plane_holds(
            k,
            c,
            dtype,
            max_seq,
            before,
            rows_put(
                storing(k, mid.mem),
                mid.mem,
                dtype,
                Buf::PlaneK,
                Buf::PlaneV,
                plane_grid(c, max_seq),
                pos as int,
                0,
                rows as int,
                kv_dim(c),
            ),
            pos,
            rows,
            head,
            p,
            e,
        ),
{
    let g = plane_grid(c, max_seq);
    let hd = c.head_dim as int;
    let kv = kv_dim(c);
    let at = place(max_seq as int, hd, head, p, e);
    lemma_place(g, head, p, e);
    lemma_row_inside(head, c.head_count_kv as int, hd);
    if pos <= p < pos + rows {
        let i = head * hd + e;
        assert(row(mid.mem, Buf::AttnK, (p - pos) * kv, kv)[i] == (mid.mem)(
            Buf::AttnK,
            (p - pos) * kv + i,
        ));
        assert(row(mid.mem, Buf::AttnV, (p - pos) * kv, kv)[i] == (mid.mem)(
            Buf::AttnV,
            (p - pos) * kv + i,
        ));
    }
}

/// A chunk through a full-attention layer with a dense cache: every row's
/// residual gets its own attention over the cache as it then is, up to and
/// including its own position.
pub proof fn law_chunk_attends_every_row<T>(
    k: Machine<T>,
    h: Held<T>,
    c: ConfigModel,
    gated: bool,
    dtype: KvDtype,
    max_seq: u32,
    pos: u32,
    rows: u32,
    scoped: bool,
    r: int,
)
    requires
        dims_fit(c, rows as int),
        2 * c.head_dim <= u32::MAX,
        0 <= r < rows,
    ensures
        ({
            let attend = chunk_attend_dense_ops(c, dtype, max_seq, pos, rows);
            let u = done(k, h, ops_of(chunk_steps(c, gated, attend, pos, rows, scoped)));
            residual(u, c.embedding_length, r) == mixed_in(
                k,
                c,
                gated,
                dense_view(u.mem, dtype, max_seq),
                pos + r,
                residual(h, c.embedding_length, r),
            )
        }),
{
    broadcast use lemma_keeps;

    let attend = chunk_attend_dense_ops(c, dtype, max_seq, pos, rows);
    lemma_chunk_ops(c, gated, attend, pos, rows, scoped);
    law_chunk_projects_every_row(k, h, c, gated, rows, pos, r);
    let a = norm_ops(c, rows) + chunk_qkv_ops(c, gated, rows, pos);
    let out = chunk_out_ops(c, gated, rows);
    lemma_in_turn(k, h, a + attend, out);
    lemma_in_turn(k, h, a, attend);
    let h1 = done(k, h, a);
    lemma_two(k, h1, attend);
    let h2 = after(k, h1, attend[0]);
    let h3 = after(k, h2, attend[1]);
    lemma_qkv_keeps(k, h, c, gated, rows, pos);
    let view = dense_view(h2.mem, dtype, max_seq);
    let x = residual(h, c.embedding_length, r);
    lemma_attends(k, h2, h3, c, gated, view, rows, pos as int, r, x, true);
    let u = done(k, h3, out);
    assert forall|b: Buf, at: int, n: int| caches(b) implies #[trigger] row(u.mem, b, at, n)
        == row(h2.mem, b, at, n) by {
        lemma_keeps(k, h2, attend[1], b, at, n);
        lemma_keeps_all(k, h3, out, b, at, n);
    }
    lemma_same_planes(h2.mem, u.mem, dtype, max_seq);
}

/// Planes that did not change are the same to a kernel.
pub proof fn lemma_same_planes<T>(a: Memory<T>, b: Memory<T>, dtype: KvDtype, max_seq: u32)
    requires
        forall|buf: Buf, at: int, n: int|
            caches(buf) ==> #[trigger] row(b, buf, at, n) == row(a, buf, at, n),
    ensures
        dense_view(a, dtype, max_seq) == dense_view(b, dtype, max_seq),
{
    assert forall|buf: Buf| caches(buf) implies from(a, #[trigger] start(buf)) == from(
        b,
        start(buf),
    ) by {
        lemma_same_from(a, b, buf);
    }
    assert(from(a, start(Buf::PlaneK)) == from(b, start(Buf::PlaneK)));
    assert(from(a, start(Buf::PlaneV)) == from(b, start(Buf::PlaneV)));
}

/// A buffer that did not change is the same to a kernel.
pub proof fn lemma_same_from<T>(a: Memory<T>, b: Memory<T>, buf: Buf)
    requires
        forall|at: int, n: int| #[trigger] row(b, buf, at, n) == row(a, buf, at, n),
    ensures
        from(a, start(buf)) == from(b, start(buf)),
{
    let (f, g) = (from(a, start(buf)), from(b, start(buf)));
    assert forall|i: int| #[trigger] f(i) == g(i) by {
        assert(row(b, buf, i, 1) == row(a, buf, i, 1));
        assert(row(b, buf, i, 1)[0] == b(buf, i));
        assert(row(a, buf, i, 1)[0] == a(buf, i));
    }
    assert(f =~= g);
}

/// The projections leave the residual and the cache alone.
pub proof fn lemma_qkv_keeps<T>(
    k: Machine<T>,
    h: Held<T>,
    c: ConfigModel,
    gated: bool,
    rows: u32,
    pos: u32,
)
    ensures
        forall|b: Buf, at: int, n: int|
            caches(b) || b == Buf::X ==> #[trigger] row(
                done(k, h, norm_ops(c, rows) + chunk_qkv_ops(c, gated, rows, pos)).mem,
                b,
                at,
                n,
            ) == row(h.mem, b, at, n),
{
    let ops = norm_ops(c, rows) + chunk_qkv_ops(c, gated, rows, pos);
    assert forall|i: int, b: Buf|
        0 <= i < ops.len() && (caches(b) || b == Buf::X) implies !(#[trigger] changes(
        ops[i],
        b,
    )) by {}
    assert forall|b: Buf, at: int, n: int| caches(b) || b == Buf::X implies #[trigger] row(
        done(k, h, ops).mem,
        b,
        at,
        n,
    ) == row(h.mem, b, at, n) by {
        lemma_keeps_all(k, h, ops, b, at, n);
    }
}

/// A buffer that none of the operations changes.
pub proof fn lemma_keeps_all<T>(k: Machine<T>, h: Held<T>, ops: Seq<Op>, b: Buf, at: int, n: int)
    requires
        forall|i: int| 0 <= i < ops.len() ==> !changes(#[trigger] ops[i], b),
    ensures
        row(done(k, h, ops).mem, b, at, n) == row(h.mem, b, at, n),
    decreases ops.len(),
{
    if ops.len() > 0 {
        let less = ops.drop_last();
        assert forall|i: int| 0 <= i < less.len() implies !changes(#[trigger] less[i], b) by {
            assert(less[i] == ops[i]);
        }
        lemma_keeps_all(k, h, less, b, at, n);
        assert(!changes(ops[ops.len() - 1], b));
        lemma_keeps(k, done(k, h, less), ops.last(), b, at, n);
    }
}

/// An element of a buffer that none of the operations changes.
pub proof fn lemma_keeps_place<T>(k: Machine<T>, h: Held<T>, ops: Seq<Op>, b: Buf, at: int)
    requires
        forall|i: int| 0 <= i < ops.len() ==> !changes(#[trigger] ops[i], b),
    ensures
        (done(k, h, ops).mem)(b, at) == (h.mem)(b, at),
{
    lemma_keeps_all(k, h, ops, b, at, 1);
    assert(row(done(k, h, ops).mem, b, at, 1)[0] == row(h.mem, b, at, 1)[0]);
}

/// A chunk leaves every row's key and value in a dense cache, at the row's
/// own position, and nothing else changes there.
pub proof fn law_chunk_caches_every_row<T>(
    k: Machine<T>,
    h: Held<T>,
    c: ConfigModel,
    gated: bool,
    dtype: KvDtype,
    max_seq: u32,
    pos: u32,
    rows: u32,
    scoped: bool,
    head: int,
    p: int,
    e: int,
)
    requires
        dims_fit(c, rows as int),
        2 * c.head_dim <= u32::MAX,
        pos + rows <= max_seq,
        0 <= head < c.head_count_kv,
        0 <= p < max_seq,
        0 <= e < c.head_dim,
    ensures
        ({
            let attend = chunk_attend_dense_ops(c, dtype, max_seq, pos, rows);
            let u = done(k, h, ops_of(chunk_steps(c, gated, attend, pos, rows, scoped)));
            plane_holds(k, c, dtype, max_seq, h, u.mem, pos, rows, head, p, e)
        }),
{
    let attend = chunk_attend_dense_ops(c, dtype, max_seq, pos, rows);
    lemma_chunk_ops(c, gated, attend, pos, rows, scoped);
    if pos <= p < pos + rows {
        law_chunk_projects_every_row(k, h, c, gated, rows, pos, p - pos);
    }
    let a = norm_ops(c, rows) + chunk_qkv_ops(c, gated, rows, pos);
    let out = chunk_out_ops(c, gated, rows);
    lemma_in_turn(k, h, a + attend, out);
    lemma_in_turn(k, h, a, attend);
    let h1 = done(k, h, a);
    lemma_two(k, h1, attend);
    let h2 = after(k, h1, attend[0]);
    let h3 = after(k, h2, attend[1]);
    let at = place(max_seq as int, c.head_dim as int, head, p, e);
    lemma_keeps_place(k, h, a, Buf::PlaneK, at);
    lemma_keeps_place(k, h, a, Buf::PlaneV, at);
    lemma_plane_holds(k, c, dtype, max_seq, h, h1, pos, rows, head, p, e);
    super::lemma_keeps_element(k, h2, attend[1], Buf::PlaneK, at);
    super::lemma_keeps_element(k, h2, attend[1], Buf::PlaneV, at);
    lemma_keeps_place(k, h3, out, Buf::PlaneK, at);
    lemma_keeps_place(k, h3, out, Buf::PlaneV, at);
}

/// What precedes a decoded token's attention.
pub open spec fn token_qkv_ops(c: ConfigModel, gated: bool, pos: u32) -> Seq<Op> {
    norm_ops(c, 1) + (project_ops(c, gated) + split_ops(gated, c.head_count as nat, c.head_dim)
        + head_ops(c, 1, pos))
}

proof fn lemma_split_changes(gated: bool, heads: nat, head_dim: u32)
    ensures
        forall|i: int, b: Buf|
            0 <= i < split_ops(gated, heads, head_dim).len() && b != Buf::AttnQ && b
                != Buf::AttnGate ==> !(#[trigger] changes(
                split_ops(gated, heads, head_dim)[i],
                b,
            )),
    decreases heads,
{
    if heads > 0 {
        let p = (heads - 1) as nat;
        lemma_split_changes(gated, p, head_dim);
        let less = split_ops(gated, p, head_dim);
        let all = split_ops(gated, heads, head_dim);
        assert forall|i: int, b: Buf|
            0 <= i < all.len() && b != Buf::AttnQ && b != Buf::AttnGate implies !(
        #[trigger] changes(all[i], b)) by {
            if i < less.len() {
                assert(all[i] == less[i]);
                assert(!changes(less[i], b));
            }
        }
    }
}

pub proof fn lemma_token_qkv_changes(c: ConfigModel, gated: bool, pos: u32, b: Buf)
    requires
        caches(b) || b == Buf::X,
    ensures
        forall|i: int|
            0 <= i < token_qkv_ops(c, gated, pos).len() ==> !changes(
                #[trigger] token_qkv_ops(c, gated, pos)[i],
                b,
            ),
{
    let (a, d) = (norm_ops(c, 1), project_ops(c, gated));
    let (e, f) = (split_ops(gated, c.head_count as nat, c.head_dim), head_ops(c, 1, pos));
    let all = token_qkv_ops(c, gated, pos);
    lemma_split_changes(gated, c.head_count as nat, c.head_dim);
    assert forall|i: int| 0 <= i < all.len() implies !changes(#[trigger] all[i], b) by {
        let s = a.len() as int;
        if i < s {
            assert(all[i] == a[i]);
        } else if i < s + d.len() {
            assert(all[i] == d[i - s]);
        } else if i < s + d.len() + e.len() {
            let n = i - s - d.len();
            assert(all[i] == e[n]);
            assert(!changes(e[n], b));
        } else {
            assert(all[i] == f[i - s - d.len() - e.len()]);
        }
    }
}

/// A decoded token through a full-attention layer with a dense cache gets
/// what a row of a chunk at its position gets.
pub proof fn law_token_attends<T>(
    k: Machine<T>,
    h: Held<T>,
    c: ConfigModel,
    gated: bool,
    dtype: KvDtype,
    max_seq: u32,
    pos: u32,
    n_splits: u32,
    scoped: bool,
)
    requires
        super::evicts_in_place(k),
        dims_fit(c, 1),
        2 * c.head_dim <= u32::MAX,
        pos < max_seq,
    ensures
        ({
            let cache = AttnCacheModel::Dense(dtype);
            let u = done(
                k,
                h,
                ops_of(attention_steps(c, gated, cache, max_seq, pos, n_splits, scoped)),
            );
            residual(u, c.embedding_length, 0) == mixed_in(
                k,
                c,
                gated,
                dense_view(u.mem, dtype, max_seq),
                pos as int,
                residual(h, c.embedding_length, 0),
            )
        }),
{
    broadcast use lemma_keeps;

    let cache = AttnCacheModel::Dense(dtype);
    lemma_attention_ops(c, gated, cache, max_seq, pos, n_splits, scoped);
    law_token_is_projected(k, h, c, gated, pos);
    let a = token_qkv_ops(c, gated, pos);
    let attend = attend_ops(c, cache, max_seq, pos);
    let out = out_ops(c, gated);
    lemma_in_turn(k, h, a + attend, out);
    lemma_in_turn(k, h, a, attend);
    let h1 = done(k, h, a);
    let heads = c.head_count_kv as nat;
    let rows = row_ops(dtype, Buf::PlaneK, Buf::PlaneV, max_seq, pos, heads, c.head_dim);
    let h2 = done(k, h1, rows);
    let h3 = done(k, h1, attend);
    super::lemma_one_more(k, h1, rows, attend.last());
    assert(attend =~= rows.push(attend.last()));
    lemma_row_ops_move(dtype, Buf::PlaneK, Buf::PlaneV, max_seq, pos, heads, c.head_dim);
    lemma_moved(k, h1, rows);
    lemma_token_qkv_changes(c, gated, pos, Buf::X);
    lemma_keeps_all(k, h, a, Buf::X, 0, c.embedding_length as int);
    let (q, hidden) = (q_dim(c), c.embedding_length as int);
    assert(row(h2.mem, Buf::AttnQ, 0, q) =~= row(h1.mem, Buf::AttnQ, 0, q));
    assert(row(h2.mem, Buf::AttnGate, 0, q) =~= row(h1.mem, Buf::AttnGate, 0, q));
    assert(row(h2.mem, Buf::X, 0, hidden) =~= row(h1.mem, Buf::X, 0, hidden));
    let view = dense_view(h2.mem, dtype, max_seq);
    let x = residual(h, c.embedding_length, 0);
    lemma_attends(k, h2, h3, c, gated, view, 1, pos as int, 0, x, false);
    let u = done(k, h3, out);
    assert forall|b: Buf, at: int, n: int| caches(b) implies #[trigger] row(u.mem, b, at, n)
        == row(h2.mem, b, at, n) by {
        lemma_keeps(k, h2, attend.last(), b, at, n);
        lemma_keeps_all(k, h3, out, b, at, n);
    }
    lemma_same_planes(h2.mem, u.mem, dtype, max_seq);
}

/// A decoded token's key and value are at its position of a dense cache, and
/// nothing else changes there.
pub proof fn law_token_is_cached<T>(
    k: Machine<T>,
    h: Held<T>,
    c: ConfigModel,
    gated: bool,
    dtype: KvDtype,
    max_seq: u32,
    pos: u32,
    n_splits: u32,
    scoped: bool,
    head: int,
    p: int,
    e: int,
)
    requires
        super::evicts_in_place(k),
        dims_fit(c, 1),
        2 * c.head_dim <= u32::MAX,
        plane_fits(c.head_count_kv, max_seq, c.head_dim),
        pos < max_seq,
        0 <= head < c.head_count_kv,
        0 <= p < max_seq,
        0 <= e < c.head_dim,
    ensures
        ({
            let cache = AttnCacheModel::Dense(dtype);
            let u = done(
                k,
                h,
                ops_of(attention_steps(c, gated, cache, max_seq, pos, n_splits, scoped)),
            );
            plane_holds(k, c, dtype, max_seq, h, u.mem, pos, 1, head, p, e)
        }),
{
    let cache = AttnCacheModel::Dense(dtype);
    lemma_attention_ops(c, gated, cache, max_seq, pos, n_splits, scoped);
    law_token_is_projected(k, h, c, gated, pos);
    let a = token_qkv_ops(c, gated, pos);
    let attend = attend_ops(c, cache, max_seq, pos);
    let out = out_ops(c, gated);
    lemma_in_turn(k, h, a + attend, out);
    lemma_in_turn(k, h, a, attend);
    let h1 = done(k, h, a);
    let heads = c.head_count_kv as nat;
    let rows = row_ops(dtype, Buf::PlaneK, Buf::PlaneV, max_seq, pos, heads, c.head_dim);
    let h2 = done(k, h1, rows);
    let h3 = done(k, h1, attend);
    super::lemma_one_more(k, h1, rows, attend.last());
    assert(attend =~= rows.push(attend.last()));
    lemma_row_ops_move(dtype, Buf::PlaneK, Buf::PlaneV, max_seq, pos, heads, c.head_dim);
    lemma_moved(k, h1, rows);
    let g = plane_grid(c, max_seq);
    lemma_row_by_head(
        storing(k, h1.mem),
        h1.mem,
        dtype,
        Buf::PlaneK,
        Buf::PlaneV,
        g,
        pos as int,
        heads,
        0,
        kv_dim(c),
    );
    assert(Grid { heads: heads as int, ..g } == g);
    let at = place(max_seq as int, c.head_dim as int, head, p, e);
    lemma_token_qkv_changes(c, gated, pos, Buf::PlaneK);
    lemma_token_qkv_changes(c, gated, pos, Buf::PlaneV);
    lemma_keeps_place(k, h, a, Buf::PlaneK, at);
    lemma_keeps_place(k, h, a, Buf::PlaneV, at);
    lemma_plane_holds(k, c, dtype, max_seq, h, h1, pos, 1, head, p, e);
    super::lemma_keeps_element(k, h2, attend.last(), Buf::PlaneK, at);
    super::lemma_keeps_element(k, h2, attend.last(), Buf::PlaneV, at);
    lemma_keeps_place(k, h3, out, Buf::PlaneK, at);
    lemma_keeps_place(k, h3, out, Buf::PlaneV, at);
}

} // verus!
