//! What the experts of a chunk add to every row's residual.

use super::attention::lemma_keeps_all;
use super::experts::{
    accumulated, at_place, choice_weights, expert_input, expert_out, expert_projected, for_experts,
    router_logits, shared_out,
};
use super::routed::{brings, knows, lemma_brought, lemma_known_after_all, of_a_plan};
use super::{
    added, after, changes, done, group_added, lemma_add_row, lemma_four, lemma_in_turn, lemma_keeps,
    lemma_keeps_element, lemma_matmul_row, lemma_norm_row, lemma_one, lemma_product_row,
    lemma_put_row, lemma_row_inside, lemma_silu_row, lemma_two, residual, row, Held, Machine,
};
use crate::qwen35::cache::effect::Memory;
use crate::qwen35::config::{ConfigModel, MoeConfig};
use crate::qwen35::forward::moe::ExpertAt;
use crate::qwen35::forward::moe_chunk::{
    chunk_moe_add_ops, chunk_route_ops, fetch_ops, gather_ops, group_ops, is_routed_chunk_plan,
    routed_chunk_ops, source, touched, RoutedChunkPlan,
};
use crate::qwen35::forward::plan::{start, Buf, Eps, ExpertPart, Linear, Op};
use crate::qwen35::forward::residency::{
    found, found_all, is_chain, lemma_after_concat, lemma_after_push, lemma_chain, lemma_grouped,
    usable, Residency,
};
use crate::qwen35::moe::expert_cache::{CacheModel, Placement};
use crate::qwen35::moe::expert_lru::ExpertKey;
use crate::qwen35::moe::overlap::keys_of;
use crate::qwen35::moe::route::Assignment;
use vstd::prelude::*;

verus! {

/// The router and the shared expert of a chunk's row are those of a token.
pub proof fn law_every_row_is_routed<T>(
    k: Machine<T>,
    h: Held<T>,
    c: ConfigModel,
    m: MoeConfig,
    rows: u32,
    r: int,
)
    requires
        0 <= r < rows,
        rows * m.shared_ff_len <= u32::MAX,
    ensures
        ({
            let n = c.embedding_length as int;
            let used = m.expert_used_count as int;
            let t = done(k, h, chunk_route_ops(c, m, rows));
            let x = residual(h, c.embedding_length, r);
            let logits = router_logits(k, m, expert_input(k, x));
            &&& row(t.mem, Buf::Xn, r * n, n) == expert_input(k, x)
            &&& row(t.mem, Buf::ChunkAccum, r * n, n) == shared_out(k, c, m, expert_input(k, x))
            &&& row(t.mem, Buf::ChunkTopkIdx, r * used, used) == Seq::new(
                used as nat,
                |j: int| (k.choice)(m.expert_used_count, logits, j),
            )
            &&& row(t.mem, Buf::ChunkTopkWeight, r * used, used) == Seq::new(
                used as nat,
                |j: int| choice_weights(k, m, x)(j),
            )
            &&& residual(t, c.embedding_length, r) == x
        }),
{
    broadcast use lemma_keeps;

    let hidden = c.embedding_length;
    let n = hidden as int;
    let ff = m.shared_ff_len;
    let used = m.expert_used_count as int;
    let ec = m.expert_count as int;
    lemma_row_inside(r, rows as int, ff as int);
    let ops = chunk_route_ops(c, m, rows);
    let (a, b) = (ops.take(4), ops.skip(4));
    lemma_in_turn(k, h, a, b);
    assert(a + b =~= ops);
    lemma_four(k, h, a);
    let h1 = after(k, h, ops[0]);
    let h2 = after(k, h1, ops[1]);
    let h3 = after(k, h2, ops[2]);
    let h4 = after(k, h3, ops[3]);
    let (d, e) = (b.take(4), b.skip(4));
    lemma_in_turn(k, h4, d, e);
    assert(d + e =~= b);
    lemma_four(k, h4, d);
    let h5 = after(k, h4, ops[4]);
    let h6 = after(k, h5, ops[5]);
    let h7 = after(k, h6, ops[6]);
    let h8 = after(k, h7, ops[7]);
    lemma_one(k, h8, e);
    let t = after(k, h8, ops[8]);
    let xn = start(Buf::Xn);
    let x = residual(h, hidden, r);
    let y = expert_input(k, x);
    lemma_norm_row(k, h, start(Buf::X), Buf::PostAttentionNorm, xn, rows, hidden, Eps::Rms, r);
    let single = |w: Buf| |s: Seq<T>, j: int| (k.project_single)(w, s, j);
    lemma_product_row(
        h1.mem,
        single(Buf::Router),
        xn,
        start(Buf::ChunkRouterLogits),
        rows as int,
        ec,
        n,
        r,
    );
    let logits = router_logits(k, m, y);
    assert(row(h2.mem, Buf::ChunkRouterLogits, r * ec, ec) =~= logits);
    let f = |r: int, j: int|
        (k.choice)(
            m.expert_used_count,
            row(h2.mem, Buf::ChunkRouterLogits, r * m.expert_count, ec),
            j,
        );
    let g = |r: int, j: int|
        (k.choice_weight)(
            m.expert_used_count,
            row(h2.mem, Buf::ChunkRouterLogits, r * m.expert_count, ec),
            j,
        );
    let (ti, tw) = (start(Buf::ChunkTopkIdx), start(Buf::ChunkTopkWeight));
    let mid = super::put_rows(h2.mem, ti, rows as int, used, f);
    lemma_put_row(h2.mem, ti, rows as int, used, f, r);
    lemma_put_row(mid, tw, rows as int, used, g, r);
    assert(row(h3.mem, Buf::ChunkTopkIdx, r * used, used) =~= row(
        mid,
        Buf::ChunkTopkIdx,
        r * used,
        used,
    ));
    assert(row(h3.mem, Buf::ChunkTopkIdx, r * used, used) =~= Seq::new(
        used as nat,
        |j: int| (k.choice)(m.expert_used_count, logits, j),
    ));
    assert(row(h3.mem, Buf::ChunkTopkWeight, r * used, used) =~= Seq::new(
        used as nat,
        |j: int| choice_weights(k, m, x)(j),
    ));
    let (sa, sb) = (start(Buf::SharedA), start(Buf::SharedB));
    lemma_matmul_row(k, h3, Linear::SharedGate, xn, sa, rows, ff, hidden, r);
    lemma_matmul_row(k, h4, Linear::SharedUp, xn, sb, rows, ff, hidden, r);
    lemma_silu_row(k, h5, sa, sb, sa, (rows * ff) as u32, r * ff, ff as int);
    let so = start(Buf::SharedOut);
    lemma_matmul_row(k, h6, Linear::SharedDown, sa, so, rows, hidden, ff, r);
    lemma_product_row(
        h7.mem,
        single(Buf::SharedGate),
        xn,
        start(Buf::ChunkSharedGateLogit),
        rows as int,
        1,
        n,
        r,
    );
    let scale = (k.project_single)(Buf::SharedGate, y, 0);
    assert(r * 1 == r);
    assert(row(h8.mem, Buf::ChunkSharedGateLogit, r, 1)[0] == scale);
    let w = |r: int, j: int|
        (k.sigmoid_mul)(
            (h8.mem)(Buf::SharedOut, r * hidden + j),
            (h8.mem)(Buf::ChunkSharedGateLogit, r),
        );
    lemma_put_row(h8.mem, start(Buf::ChunkAccum), rows as int, n, w, r);
    let out = row(h8.mem, Buf::SharedOut, r * n, n);
    assert(row(t.mem, Buf::ChunkAccum, r * n, n) =~= Seq::new(
        n as nat,
        |j: int| (k.sigmoid_mul)(out[j], scale),
    ));
    assert(row(t.mem, Buf::ChunkAccum, r * n, n) =~= shared_out(k, c, m, y));
}

/// A row's sum after the first `n` assignments of a group: those that are the
/// row's own add the expert's output for it, with their weight.
pub open spec fn group_sum<T>(
    k: Machine<T>,
    sum: Seq<T>,
    group: Seq<Assignment>,
    r: int,
    y: Seq<T>,
    n: nat,
) -> Seq<T>
    decreases n,
{
    if n == 0 {
        sum
    } else {
        let before = group_sum(k, sum, group, r, y, (n - 1) as nat);
        if group[n - 1].0 == r {
            accumulated(k, before, (k.weight)(group[n - 1].1), y)
        } else {
            before
        }
    }
}

/// A row's sum after the first `n` of a chunk's experts, each with its group.
pub open spec fn row_sum<T>(
    k: Machine<T>,
    c: ConfigModel,
    m: MoeConfig,
    g: Seq<Seq<Assignment>>,
    experts: Seq<u32>,
    r: int,
    x: Seq<T>,
    first: Seq<T>,
    n: nat,
) -> Seq<T>
    decreases n,
{
    if n == 0 {
        first
    } else {
        let e = experts[n - 1];
        group_sum(
            k,
            row_sum(k, c, m, g, experts, r, x, first, (n - 1) as nat),
            g[e as int],
            r,
            expert_out(k, c, m, e, x),
            g[e as int].len(),
        )
    }
}

proof fn lemma_group_added_row<T>(
    k: Machine<T>,
    mem: Memory<T>,
    group: Seq<Assignment>,
    cols: int,
    n: nat,
    rows: int,
    r: int,
    y: Seq<T>,
)
    requires
        n <= group.len(),
        0 <= r < rows,
        0 <= cols,
        rows * cols <= u32::MAX,
        y.len() == cols,
        forall|i: int| 0 <= i < n ==> (#[trigger] group[i]).0 < rows,
        forall|i: int|
            #![trigger group[i]]
            0 <= i < n && group[i].0 == r ==> row(mem, Buf::GroupDown, i * cols, cols) == y,
    ensures
        row(group_added(k, mem, group, cols, n), Buf::ChunkAccum, r * cols, cols) == group_sum(
            k,
            row(mem, Buf::ChunkAccum, r * cols, cols),
            group,
            r,
            y,
            n,
        ),
        row(group_added(k, mem, group, cols, n), Buf::ChunkAccum, r * cols, cols).len() == cols,
    decreases n,
{
    if n > 0 {
        let i = n - 1;
        lemma_group_added_row(k, mem, group, cols, i as nat, rows, r, y);
        let a = group[i];
        assert(a.0 < rows);
        lemma_row_inside(a.0 as int, rows, cols);
        lemma_row_inside(r, rows, cols);
        let before = group_added(k, mem, group, cols, i as nat);
        let now = group_added(k, mem, group, cols, n);
        let was = row(before, Buf::ChunkAccum, r * cols, cols);
        if a.0 == r {
            assert(row(mem, Buf::GroupDown, i * cols, cols) == y);
            assert forall|j: int| 0 <= j < cols implies #[trigger] row(
                now,
                Buf::ChunkAccum,
                r * cols,
                cols,
            )[j] == (k.accumulate)(was[j], (k.weight)(a.1), y[j]) by {
                assert(row(mem, Buf::GroupDown, i * cols, cols)[j] == mem(
                    Buf::GroupDown,
                    i * cols + j,
                ));
            }
            assert(row(now, Buf::ChunkAccum, r * cols, cols) =~= accumulated(
                k,
                was,
                (k.weight)(a.1),
                y,
            ));
        } else {
            assert(a.0 * cols + cols <= r * cols || r * cols + cols <= a.0 * cols)
                by (nonlinear_arith)
                requires
                    a.0 != r,
                    0 <= cols,
            ;
            assert(row(now, Buf::ChunkAccum, r * cols, cols) =~= was);
        }
    }
}

/// What a group's kernels found is at its expert's place.
proof fn lemma_group_found_there(
    r: Residency,
    layer: u32,
    c: ConfigModel,
    m: MoeConfig,
    at: ExpertAt,
    rows: u32,
    key: ExpertKey,
)
    requires
        r.after_all(layer, group_ops(c, m, at, rows)).read == r.read + found(key),
    ensures
        r.whole(at, key),
{
    let ops = group_ops(c, m, at, rows);
    let none = Seq::<Op>::empty();
    let s1 = none.push(ops[0]);
    let s2 = s1.push(ops[1]);
    let s3 = s2.push(ops[2]);
    let s4 = s3.push(ops[3]);
    lemma_after_push(r, layer, none, ops[0]);
    lemma_after_push(r, layer, s1, ops[1]);
    lemma_after_push(r, layer, s2, ops[2]);
    lemma_after_push(r, layer, s3, ops[3]);
    lemma_after_push(r, layer, s4, ops[4]);
    assert(s4.push(ops[4]) =~= ops);
    let t = r.after_all(layer, ops).read;
    let n = r.read.len() as int;
    assert(t[n] == found(key)[0]);
    assert(t[n + 1] == found(key)[1]);
    assert(t[n + 2] == found(key)[2]);
}

/// The outputs of an expert's group, row by row of the group.
proof fn lemma_group_out<T>(
    k: Machine<T>,
    h: Held<T>,
    c: ConfigModel,
    m: MoeConfig,
    at: ExpertAt,
    rows: u32,
    expert: u32,
    i: int,
)
    requires
        for_experts(at),
        at_place(k, h.mem, at, expert),
        0 <= i < rows,
        rows * m.expert_ff_len <= u32::MAX,
    ensures
        ({
            let n = c.embedding_length as int;
            let t = done(k, h, group_ops(c, m, at, rows).take(4));
            row(t.mem, Buf::GroupDown, i * n, n) == expert_out(
                k,
                c,
                m,
                expert,
                row(h.mem, Buf::GroupX, i * n, n),
            )
        }),
{
    broadcast use lemma_keeps;

    let n = c.embedding_length as int;
    let ff = m.expert_ff_len as int;
    lemma_row_inside(i, rows as int, ff);
    let ops = group_ops(c, m, at, rows).take(4);
    lemma_four(k, h, ops);
    let h1 = after(k, h, ops[0]);
    let h2 = after(k, h1, ops[1]);
    let h3 = after(k, h2, ops[2]);
    let t = after(k, h3, ops[3]);
    let x = row(h.mem, Buf::GroupX, i * n, n);
    let w = |p: ExpertPart| |s: Seq<T>, j: int|
        (k.project_expert)(p, (k.matrix)(p, expert), s, j);
    lemma_keeps_element(k, h, ops[0], at.up.buf, at.up.offset as int);
    lemma_keeps_element(k, h, ops[0], at.down.buf, at.down.offset as int);
    lemma_keeps_element(k, h1, ops[1], at.down.buf, at.down.offset as int);
    lemma_keeps_element(k, h2, ops[2], at.down.buf, at.down.offset as int);
    let (gx, gg, gu) = (start(Buf::GroupX), start(Buf::GroupGate), start(Buf::GroupUp));
    lemma_product_row(h.mem, w(ExpertPart::Gate), gx, gg, rows as int, ff, n, i);
    assert(row(h1.mem, Buf::GroupGate, i * ff, ff) =~= expert_projected(
        k,
        ExpertPart::Gate,
        expert,
        ff,
        x,
    ));
    lemma_product_row(h1.mem, w(ExpertPart::Up), gx, gu, rows as int, ff, n, i);
    assert(row(h2.mem, Buf::GroupUp, i * ff, ff) =~= expert_projected(
        k,
        ExpertPart::Up,
        expert,
        ff,
        x,
    ));
    lemma_silu_row(k, h2, gg, gu, gg, (rows * m.expert_ff_len) as u32, i * ff, ff);
    lemma_product_row(
        h3.mem,
        w(ExpertPart::Down),
        gg,
        start(Buf::GroupDown),
        rows as int,
        n,
        ff,
        i,
    );
    assert(row(t.mem, Buf::GroupDown, i * n, n) =~= expert_out(k, c, m, expert, x));
}

/// A group's rows are rows of the chunk, and fit its buffers.
pub open spec fn group_fits(g: Seq<Assignment>, m: MoeConfig, rows: u32) -> bool {
    &&& g.len() <= u32::MAX
    &&& g.len() * m.expert_ff_len <= u32::MAX
    &&& forall|i: int| 0 <= i < g.len() ==> (#[trigger] g[i]).0 < rows
}

/// Gathering a group takes its rows of the chunk, in the group's order.
proof fn lemma_gathered<T>(
    k: Machine<T>,
    h: Held<T>,
    c: ConfigModel,
    expert: u32,
    rows: u32,
    q: int,
)
    requires
        k.groups[expert as int].len() <= u32::MAX,
    ensures
        ({
            let g = k.groups[expert as int];
            let w = c.embedding_length as int;
            let t = done(k, h, gather_ops(c, expert, g.len() as u32));
            &&& t.group == g
            &&& forall|i: int|
                #![trigger g[i]]
                0 <= i < g.len() && g[i].0 == q ==> row(t.mem, Buf::GroupX, i * w, w) == row(
                    h.mem,
                    Buf::Xn,
                    q * w,
                    w,
                )
            &&& row(t.mem, Buf::ChunkAccum, q * w, w) == row(h.mem, Buf::ChunkAccum, q * w, w)
            &&& row(t.mem, Buf::Xn, q * w, w) == row(h.mem, Buf::Xn, q * w, w)
            &&& row(t.mem, Buf::X, q * w, w) == row(h.mem, Buf::X, q * w, w)
        }),
{
    broadcast use lemma_keeps;

    let g = k.groups[expert as int];
    let n = g.len() as u32;
    let w = c.embedding_length as int;
    let a = gather_ops(c, expert, n);
    lemma_two(k, h, a);
    let h1 = after(k, h, a[0]);
    let h2 = after(k, h1, a[1]);
    let f = |r: int, j: int| (h1.mem)(Buf::Xn, h1.group[r].0 * c.embedding_length + j);
    assert forall|i: int|
        #![trigger g[i]]
        0 <= i < g.len() && g[i].0 == q implies row(h2.mem, Buf::GroupX, i * w, w) == row(
        h.mem,
        Buf::Xn,
        q * w,
        w,
    ) by {
        lemma_put_row(h1.mem, start(Buf::GroupX), n as int, w, f, i);
        assert(row(h2.mem, Buf::GroupX, i * w, w) =~= row(h1.mem, Buf::Xn, q * w, w));
    }
}

/// What an expert's kernels add to a row of the chunk.
proof fn lemma_group_worked<T>(
    k: Machine<T>,
    h: Held<T>,
    c: ConfigModel,
    m: MoeConfig,
    rows: u32,
    at: ExpertAt,
    expert: u32,
    q: int,
    x: Seq<T>,
)
    requires
        for_experts(at),
        at_place(k, h.mem, at, expert),
        group_fits(h.group, m, rows),
        rows * c.embedding_length <= u32::MAX,
        0 <= q < rows,
        forall|i: int|
            #![trigger h.group[i]]
            0 <= i < h.group.len() && h.group[i].0 == q ==> row(
                h.mem,
                Buf::GroupX,
                i * c.embedding_length,
                c.embedding_length as int,
            ) == x,
    ensures
        ({
            let w = c.embedding_length as int;
            let t = done(k, h, group_ops(c, m, at, h.group.len() as u32));
            &&& row(t.mem, Buf::ChunkAccum, q * w, w) == group_sum(
                k,
                row(h.mem, Buf::ChunkAccum, q * w, w),
                h.group,
                q,
                expert_out(k, c, m, expert, x),
                h.group.len(),
            )
            &&& row(t.mem, Buf::Xn, q * w, w) == row(h.mem, Buf::Xn, q * w, w)
            &&& row(t.mem, Buf::X, q * w, w) == row(h.mem, Buf::X, q * w, w)
        }),
{
    let g = h.group;
    let n = g.len() as u32;
    let w = c.embedding_length as int;
    let d = group_ops(c, m, at, n);
    let first = d.take(4);
    lemma_in_turn(k, h, first, d.skip(4));
    assert(first + d.skip(4) =~= d);
    let h4 = done(k, h, first);
    lemma_one(k, h4, d.skip(4));
    let y = expert_out(k, c, m, expert, x);
    assert forall|i: int| 0 <= i < first.len() implies !((#[trigger] first[i])
        is UploadGroup) by {}
    lemma_group_kept(k, h, first);
    assert forall|i: int|
        #![trigger g[i]]
        0 <= i < g.len() && g[i].0 == q implies row(h4.mem, Buf::GroupDown, i * w, w) == y by {
        lemma_group_out(k, h, c, m, at, n, expert, i);
    }
    assert forall|i: int| 0 <= i < first.len() implies !changes(#[trigger] first[i], Buf::ChunkAccum)
        && !changes(first[i], Buf::Xn) && !changes(first[i], Buf::X) by {}
    lemma_keeps_all(k, h, first, Buf::ChunkAccum, q * w, w);
    lemma_keeps_all(k, h, first, Buf::Xn, q * w, w);
    lemma_keeps_all(k, h, first, Buf::X, q * w, w);
    lemma_keeps(k, h4, d[4], Buf::Xn, q * w, w);
    lemma_keeps(k, h4, d[4], Buf::X, q * w, w);
    lemma_group_added_row(k, h4.mem, g, w, g.len(), rows as int, q, y);
}

/// One expert's work on its group: every row of the chunk gets what its own
/// assignments ask for, and nothing else.
proof fn lemma_one_group_more<T>(
    k: Machine<T>,
    h: Held<T>,
    r: Residency,
    layer: u32,
    c: ConfigModel,
    m: MoeConfig,
    rows: u32,
    at: ExpertAt,
    present: bool,
    expert: u32,
    q: int,
)
    requires
        knows(k, h, r, layer),
        for_experts(at),
        group_fits(k.groups[expert as int], m, rows),
        rows * c.embedding_length <= u32::MAX,
        0 <= q < rows,
        ({
            let n = k.groups[expert as int].len() as u32;
            r.after_all(
                layer,
                gather_ops(c, expert, n) + fetch_ops(at, expert, present) + group_ops(c, m, at, n),
            ).read == r.read + found((layer, expert))
        }),
    ensures
        ({
            let g = k.groups[expert as int];
            let n = g.len() as u32;
            let w = c.embedding_length as int;
            let ops = gather_ops(c, expert, n) + fetch_ops(at, expert, present) + group_ops(
                c,
                m,
                at,
                n,
            );
            let t = done(k, h, ops);
            &&& knows(k, t, r.after_all(layer, ops), layer)
            &&& row(t.mem, Buf::ChunkAccum, q * w, w) == group_sum(
                k,
                row(h.mem, Buf::ChunkAccum, q * w, w),
                g,
                q,
                expert_out(k, c, m, expert, row(h.mem, Buf::Xn, q * w, w)),
                g.len(),
            )
            &&& row(t.mem, Buf::Xn, q * w, w) == row(h.mem, Buf::Xn, q * w, w)
            &&& residual(t, c.embedding_length, q) == residual(h, c.embedding_length, q)
        }),
{
    let g = k.groups[expert as int];
    let n = g.len() as u32;
    let w = c.embedding_length as int;
    let a = gather_ops(c, expert, n);
    let b = fetch_ops(at, expert, present);
    let d = group_ops(c, m, at, n);
    lemma_in_turn(k, h, a + b, d);
    lemma_in_turn(k, h, a, b);
    lemma_after_concat(r, layer, a + b, d);
    lemma_after_concat(r, layer, a, b);
    let h2 = done(k, h, a);
    let h3 = done(k, h2, b);
    let r2 = r.after_all(layer, a);
    let r3 = r2.after_all(layer, b);
    assert(r2.read == r.read) by {
        let none = Seq::<Op>::empty();
        lemma_after_push(r, layer, none, a[0]);
        lemma_after_push(r, layer, none.push(a[0]), a[1]);
        assert(none.push(a[0]).push(a[1]) =~= a);
    }
    assert forall|i: int| 0 <= i < b.len() implies brings(#[trigger] b[i]) by {}
    lemma_brought(k, h2, r2, layer, b);
    lemma_group_found_there(r3, layer, c, m, at, n, (layer, expert));
    lemma_group_ops_of_a_plan(c, m, at, expert, n);
    assert forall|i: int| 0 <= i < b.len() implies of_a_plan(#[trigger] b[i]) && !(b[i]
        is UploadGroup) by {
        assert(brings(b[i]));
    }
    lemma_known_after_all(k, h, r, layer, a);
    lemma_known_after_all(k, h2, r2, layer, b);
    lemma_known_after_all(k, h3, r3, layer, d);
    lemma_group_kept(k, h2, b);
    lemma_gathered(k, h, c, expert, rows, q);
    assert(row(h3.mem, Buf::ChunkAccum, q * w, w) == row(h2.mem, Buf::ChunkAccum, q * w, w));
    assert(row(h3.mem, Buf::Xn, q * w, w) == row(h2.mem, Buf::Xn, q * w, w));
    assert(row(h3.mem, Buf::X, q * w, w) == row(h2.mem, Buf::X, q * w, w));
    let x = row(h.mem, Buf::Xn, q * w, w);
    assert forall|i: int|
        #![trigger g[i]]
        0 <= i < g.len() && g[i].0 == q implies row(h3.mem, Buf::GroupX, i * w, w) == x by {
        assert(row(h3.mem, Buf::GroupX, i * w, w) == row(h2.mem, Buf::GroupX, i * w, w));
    }
    lemma_group_worked(k, h3, c, m, rows, at, expert, q, x);
}

proof fn lemma_group_ops_of_a_plan(
    c: ConfigModel,
    m: MoeConfig,
    at: ExpertAt,
    expert: u32,
    n: u32,
)
    ensures
        forall|i: int|
            0 <= i < gather_ops(c, expert, n).len() ==> of_a_plan(
                #[trigger] gather_ops(c, expert, n)[i],
            ),
        forall|i: int|
            0 <= i < group_ops(c, m, at, n).len() ==> of_a_plan(
                #[trigger] group_ops(c, m, at, n)[i],
            ),
{
}

/// Only an upload of a group changes which group it is.
proof fn lemma_group_kept<T>(k: Machine<T>, h: Held<T>, ops: Seq<Op>)
    requires
        forall|i: int| 0 <= i < ops.len() ==> !((#[trigger] ops[i]) is UploadGroup),
    ensures
        done(k, h, ops).group == h.group,
    decreases ops.len(),
{
    if ops.len() > 0 {
        let less = ops.drop_last();
        assert forall|i: int| 0 <= i < less.len() implies !((#[trigger] less[i])
            is UploadGroup) by {
            assert(less[i] == ops[i]);
        }
        lemma_group_kept(k, h, less);
        assert(!(ops[ops.len() - 1] is UploadGroup));
    }
}

/// The first `n` experts of a chunk.
proof fn lemma_grouped_sum<T>(
    k: Machine<T>,
    h: Held<T>,
    r: Residency,
    layer: u32,
    c: ConfigModel,
    m: MoeConfig,
    rows: u32,
    experts: Seq<u32>,
    p: Option<Seq<Placement>>,
    mids: Seq<CacheModel>,
    q: int,
    n: nat,
)
    requires
        knows(k, h, r, layer),
        forall|i: int|
            0 <= i < experts.len() ==> group_fits(
                k.groups[#[trigger] experts[i] as int],
                m,
                rows,
            ),
        rows * c.embedding_length <= u32::MAX,
        0 <= q < rows,
        p matches Some(p) ==> {
            &&& p.len() == experts.len()
            &&& is_chain(mids, keys_of(layer, experts), p)
            &&& usable(mids[0])
            &&& r.agrees(mids[0])
        },
        n <= experts.len(),
    ensures
        ({
            let w = c.embedding_length as int;
            let ops = routed_chunk_ops(c, m, k.groups, experts, p, n);
            let t = done(k, h, ops);
            &&& knows(k, t, r.after_all(layer, ops), layer)
            &&& row(t.mem, Buf::ChunkAccum, q * w, w) == row_sum(
                k,
                c,
                m,
                k.groups,
                experts,
                q,
                row(h.mem, Buf::Xn, q * w, w),
                row(h.mem, Buf::ChunkAccum, q * w, w),
                n,
            )
            &&& row(t.mem, Buf::Xn, q * w, w) == row(h.mem, Buf::Xn, q * w, w)
            &&& residual(t, c.embedding_length, q) == residual(h, c.embedding_length, q)
        }),
    decreases n,
{
    if n > 0 {
        let i = (n - 1) as nat;
        lemma_grouped_sum(k, h, r, layer, c, m, rows, experts, p, mids, q, i);
        lemma_grouped(r, layer, c, m, k.groups, experts, p, mids, i);
        lemma_grouped(r, layer, c, m, k.groups, experts, p, mids, n);
        let before = routed_chunk_ops(c, m, k.groups, experts, p, i);
        let e = experts[n - 1];
        assert(group_fits(k.groups[experts[n - 1] as int], m, rows));
        let count = k.groups[e as int].len() as u32;
        let s = source(p, n - 1);
        let more = gather_ops(c, e, count) + fetch_ops(s.0, e, s.1) + group_ops(c, m, s.0, count);
        assert(routed_chunk_ops(c, m, k.groups, experts, p, n) =~= before + more);
        lemma_in_turn(k, h, before, more);
        lemma_after_concat(r, layer, before, more);
        let (t, u) = (done(k, h, before), r.after_all(layer, before));
        assert(r.read + found_all(layer, experts, n) =~= u.read + found((layer, e)));
        lemma_one_group_more(k, t, u, layer, c, m, rows, s.0, s.1, e, q);
    }
}

/// What a row of a chunk gets from the chunk's experts: to the sum that the
/// shared expert began, every expert that the row chose adds its own
/// `down(silu(gate) * up)` of the row with the weight of the choice; and the
/// sum is added to the row's residual. That holds without a cache and out of
/// the cache.
pub proof fn law_grouped_experts_are_added<T>(
    k: Machine<T>,
    h: Held<T>,
    res: Residency,
    c: ConfigModel,
    m: MoeConfig,
    layer: u32,
    rows: u32,
    before: Option<CacheModel>,
    after_it: Option<CacheModel>,
    plan: RoutedChunkPlan,
    r: int,
)
    requires
        is_routed_chunk_plan(c, m, layer, rows, k.groups, before, after_it, plan),
        before matches Some(b) ==> usable(b) && res.agrees(b),
        knows(k, h, res, layer),
        k.groups.len() <= u32::MAX,
        forall|e: int|
            0 <= e < k.groups.len() ==> group_fits(#[trigger] k.groups[e], m, rows),
        rows * c.embedding_length <= u32::MAX,
        0 <= r < rows,
    ensures
        ({
            let w = c.embedding_length as int;
            let e = plan.experts@;
            residual(done(k, h, plan.ops@), c.embedding_length, r) == added(
                k,
                residual(h, c.embedding_length, r),
                row_sum(
                    k,
                    c,
                    m,
                    k.groups,
                    e,
                    r,
                    row(h.mem, Buf::Xn, r * w, w),
                    row(h.mem, Buf::ChunkAccum, r * w, w),
                    e.len(),
                ),
            )
        }),
{
    let hidden = c.embedding_length;
    let w = hidden as int;
    let e = plan.experts@;
    let g = k.groups;
    lemma_row_inside(r, rows as int, w);
    crate::qwen35::forward::moe_chunk::lemma_touched(g, g.len());
    assert forall|i: int| 0 <= i < e.len() implies group_fits(
        g[#[trigger] e[i] as int],
        m,
        rows,
    ) by {
        assert(touched(g, g.len())[i] < g.len());
    }
    let add = chunk_moe_add_ops(c, rows);
    let work = match (before, after_it) {
        (Some(b), Some(a)) => {
            let p = plan.placements@;
            let mids = lemma_chain(b, keys_of(layer, e), p, a);
            lemma_grouped_sum(k, h, res, layer, c, m, rows, e, Some(p), mids, r, e.len());
            routed_chunk_ops(c, m, g, e, Some(p), e.len())
        },
        _ => {
            lemma_grouped_sum(k, h, res, layer, c, m, rows, e, None, Seq::empty(), r, e.len());
            routed_chunk_ops(c, m, g, e, None, e.len())
        },
    };
    lemma_in_turn(k, h, work, add);
    let t = done(k, h, work);
    lemma_one(k, t, add);
    lemma_add_row(
        k,
        t,
        start(Buf::X),
        start(Buf::ChunkAccum),
        (rows * hidden) as u32,
        r * w,
        w,
    );
}

} // verus!
