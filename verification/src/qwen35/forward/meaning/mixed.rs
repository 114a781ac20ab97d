//! A full-attention layer with a mixed cache.

use super::attention::{
    lemma_attends, lemma_keeps_all, lemma_keeps_place, lemma_moved, lemma_place, lemma_row_ops_move,
    lemma_same_from, lemma_token_qkv_changes, mixed_in, moves_rows, place, token_qkv_ops,
};
use super::qkv::{law_chunk_projects_every_row, law_token_is_projected};
use super::{
    after, caches, done, evicts_in_place, from, lemma_in_turn, lemma_keeps, lemma_one_more,
    residual, row, storing, CacheView, Held, Machine,
};
use crate::load_opts::KvDtype;
use crate::qwen35::cache::effect::{
    after_each, after_ops, law_chunk_leaves_what_its_rows_leave, lemma_ops_in_turn,
    lemma_row_by_head, DeviceModel, Grid, Memory,
};
use crate::qwen35::cache::hybrid::AttnCacheModel;
use crate::qwen35::cache::layout::{appended, appended_each, ChunkSegment};
use crate::qwen35::cache::mixed::{
    append_chunk_ops, append_ops, evict_ops, segment_ops, segments_ops, PlaneModel,
};
use crate::qwen35::cache::rows::row_ops;
use crate::qwen35::config::ConfigModel;
use crate::qwen35::forward::attention::{
    attend_ops, attention_steps, can_append, lemma_attention_ops, norm_ops, out_ops,
};
use crate::qwen35::forward::attention_chunk::{
    can_append_mixed, chunk_attend_mixed_ops, chunk_out_ops, chunk_qkv_ops, chunk_steps,
    lemma_chunk_ops,
};
use crate::qwen35::forward::dims::{dims_fit, kv_dim, q_dim};
use crate::qwen35::forward::plan::{ops_of, start, Buf, Op};
use vstd::prelude::*;

verus! {

/// A mixed cache with its window from a position on.
pub open spec fn cache_of<T>(mem: Memory<T>, m: PlaneModel, window_base: int) -> CacheView<T> {
    CacheView::Mixed {
        sink_k: from(mem, start(Buf::SinkK)),
        sink_v: from(mem, start(Buf::SinkV)),
        window_k: from(mem, start(Buf::WindowK)),
        window_v: from(mem, start(Buf::WindowV)),
        bulk_k_codes: from(mem, start(Buf::BulkKCodes)),
        bulk_k_scales: from(mem, start(Buf::BulkKScales)),
        bulk_v_codes: from(mem, start(Buf::BulkVCodes)),
        bulk_v_scales: from(mem, start(Buf::BulkVScales)),
        sink_len: m.layout.sink_len as u32,
        window_len: m.layout.window_len as u32,
        window_base: window_base as u32,
        bulk_cap: m.bulk_cap as u32,
        num_blocks_total: m.num_blocks_total as u32,
        v_bits: m.v_bits,
    }
}

pub proof fn lemma_same_cache<T>(a: Memory<T>, b: Memory<T>, m: PlaneModel, window_base: int)
    requires
        forall|buf: Buf, at: int, n: int|
            caches(buf) ==> #[trigger] row(b, buf, at, n) == row(a, buf, at, n),
    ensures
        cache_of(a, m, window_base) == cache_of(b, m, window_base),
{
    lemma_same_from(a, b, Buf::SinkK);
    lemma_same_from(a, b, Buf::SinkV);
    lemma_same_from(a, b, Buf::WindowK);
    lemma_same_from(a, b, Buf::WindowV);
    lemma_same_from(a, b, Buf::BulkKCodes);
    lemma_same_from(a, b, Buf::BulkKScales);
    lemma_same_from(a, b, Buf::BulkVCodes);
    lemma_same_from(a, b, Buf::BulkVScales);
}

proof fn lemma_append_moves(m: PlaneModel, pos: int)
    ensures
        forall|i: int|
            0 <= i < append_ops(m, pos).len() ==> moves_rows(#[trigger] append_ops(m, pos)[i]),
{
    let l = m.layout;
    let heads = m.n_kv_heads as nat;
    let hd = m.head_dim as u32;
    let all = append_ops(m, pos);
    if pos < l.sink_len {
        lemma_row_ops_move(
            KvDtype::F16,
            Buf::SinkK,
            Buf::SinkV,
            l.sink_len as u32,
            pos as u32,
            heads,
            hd,
        );
    } else {
        let slot = (pos - appended(l, pos).window_base) as u32;
        lemma_row_ops_move(
            KvDtype::F16,
            Buf::WindowK,
            Buf::WindowV,
            l.window_len as u32,
            slot,
            heads,
            hd,
        );
        let evict = if pos == l.window_end() {
            evict_ops(m, l.blocks() as u32)
        } else {
            Seq::empty()
        };
        let rows = row_ops(
            KvDtype::F16,
            Buf::WindowK,
            Buf::WindowV,
            l.window_len as u32,
            slot,
            heads,
            hd,
        );
        assert(all == evict + rows);
        assert forall|i: int| 0 <= i < all.len() implies moves_rows(#[trigger] all[i]) by {
            if i < evict.len() {
                assert(all[i] == evict[i]);
            } else {
                assert(all[i] == rows[i - evict.len()]);
            }
        }
    }
}

proof fn lemma_segments_move(m: PlaneModel, s: Seq<ChunkSegment>)
    ensures
        forall|i: int|
            0 <= i < segments_ops(m, s).len() ==> moves_rows(#[trigger] segments_ops(m, s)[i]),
    decreases s.len(),
{
    if s.len() > 0 {
        lemma_segments_move(m, s.drop_last());
        let less = segments_ops(m, s.drop_last());
        let last = segment_ops(m, s.last());
        let all = segments_ops(m, s);
        assert forall|i: int| 0 <= i < all.len() implies moves_rows(#[trigger] all[i]) by {
            if i < less.len() {
                assert(all[i] == less[i]);
            } else {
                assert(all[i] == last[i - less.len()]);
            }
        }
    }
}

proof fn lemma_append_chunk_moves(m: PlaneModel, pos: int, n: int)
    ensures
        forall|i: int|
            0 <= i < append_chunk_ops(m, pos, n).len() ==> moves_rows(
                #[trigger] append_chunk_ops(m, pos, n)[i],
            ),
{
    let sink = crate::qwen35::cache::layout::sink_rows(m.layout, pos, n);
    let segs = crate::qwen35::cache::layout::segments(m.layout, pos + sink, sink, n - sink);
    lemma_segments_move(m, segs);
    let rest = segments_ops(m, segs);
    let all = append_chunk_ops(m, pos, n);
    let first = all.len() - rest.len();
    assert forall|i: int| 0 <= i < all.len() implies moves_rows(#[trigger] all[i]) by {
        if i >= first {
            assert(all[i] == rest[i - first]);
        }
    }
}

/// What a chunk's step goes through: projections, rows appended, attention,
/// output.
proof fn lemma_chunk_stages<T>(
    k: Machine<T>,
    h: Held<T>,
    c: ConfigModel,
    gated: bool,
    m: PlaneModel,
    pos: u32,
    rows: u32,
    scoped: bool,
) -> (s: (Held<T>, Held<T>, Held<T>))
    requires
        evicts_in_place(k),
    ensures
        s.0 == done(k, h, norm_ops(c, rows) + chunk_qkv_ops(c, gated, rows, pos)),
        s.1 == done(k, s.0, append_chunk_ops(m, pos as int, rows as int)),
        s.1.mem == after_ops(
            storing(k, s.0.mem),
            s.0.mem,
            append_chunk_ops(m, pos as int, rows as int),
            0,
        ),
        s.2 == after(k, s.1, chunk_attend_mixed_ops(c, m, pos, rows).last()),
        done(
            k,
            h,
            ops_of(
                chunk_steps(
                    c,
                    gated,
                    chunk_attend_mixed_ops(c, m, pos, rows),
                    pos,
                    rows,
                    scoped,
                ),
            ),
        ) == done(k, s.2, chunk_out_ops(c, gated, rows)),
        forall|b: Buf, i: int| !caches(b) ==> #[trigger] (s.1.mem)(b, i) == (s.0.mem)(b, i),
{
    let attend = chunk_attend_mixed_ops(c, m, pos, rows);
    lemma_chunk_ops(c, gated, attend, pos, rows, scoped);
    let a = norm_ops(c, rows) + chunk_qkv_ops(c, gated, rows, pos);
    let out = chunk_out_ops(c, gated, rows);
    lemma_in_turn(k, h, a + attend, out);
    lemma_in_turn(k, h, a, attend);
    let h1 = done(k, h, a);
    let append = append_chunk_ops(m, pos as int, rows as int);
    let h2 = done(k, h1, append);
    lemma_one_more(k, h1, append, attend.last());
    assert(attend =~= append.push(attend.last()));
    lemma_append_chunk_moves(m, pos as int, rows as int);
    lemma_moved(k, h1, append);
    (h1, h2, done(k, h1, attend))
}

/// A chunk through a full-attention layer with a mixed cache: every row's
/// residual gets its own attention over the cache as it then is, up to and
/// including its own position.
pub proof fn law_chunk_attends_every_row_of_a_mixed_cache<T>(
    k: Machine<T>,
    h: Held<T>,
    c: ConfigModel,
    gated: bool,
    m: PlaneModel,
    max_seq: u32,
    pos: u32,
    rows: u32,
    scoped: bool,
    r: int,
)
    requires
        evicts_in_place(k),
        dims_fit(c, rows as int),
        2 * c.head_dim <= u32::MAX,
        can_append_mixed(c, m, max_seq, pos as int, rows as int),
        0 <= r < rows,
    ensures
        ({
            let attend = chunk_attend_mixed_ops(c, m, pos, rows);
            let u = done(k, h, ops_of(chunk_steps(c, gated, attend, pos, rows, scoped)));
            let base = appended_each(m.layout, pos as int, rows as nat).window_base;
            residual(u, c.embedding_length, r) == mixed_in(
                k,
                c,
                gated,
                cache_of(u.mem, m, base),
                pos + r,
                residual(h, c.embedding_length, r),
            )
        }),
{
    let (h1, h2, h3) = lemma_chunk_stages(k, h, c, gated, m, pos, rows, scoped);
    law_chunk_projects_every_row(k, h, c, gated, rows, pos, r);
    let a = norm_ops(c, rows) + chunk_qkv_ops(c, gated, rows, pos);
    let attend = chunk_attend_mixed_ops(c, m, pos, rows);
    let out = chunk_out_ops(c, gated, rows);
    let (q, hidden) = (q_dim(c), c.embedding_length as int);
    assert(row(h2.mem, Buf::AttnQ, r * q, q) =~= row(h1.mem, Buf::AttnQ, r * q, q));
    assert(row(h2.mem, Buf::AttnGate, r * q, q) =~= row(h1.mem, Buf::AttnGate, r * q, q));
    assert(row(h2.mem, Buf::X, r * hidden, hidden) =~= row(h1.mem, Buf::X, r * hidden, hidden));
    lemma_keeps_all(k, h, a, Buf::X, r * hidden, hidden);
    let base = appended_each(m.layout, pos as int, rows as nat).window_base;
    crate::qwen35::cache::layout::lemma_appended_each_next(m.layout, pos as int, rows as nat);
    let view = cache_of(h2.mem, m, base);
    let x = residual(h, c.embedding_length, r);
    lemma_attends(k, h2, h3, c, gated, view, rows, pos as int, r, x, true);
    let u = done(k, h3, out);
    assert forall|b: Buf, at: int, n: int| caches(b) implies #[trigger] row(u.mem, b, at, n)
        == row(h2.mem, b, at, n) by {
        lemma_keeps(k, h2, attend.last(), b, at, n);
        lemma_keeps_all(k, h3, out, b, at, n);
    }
    lemma_same_cache(h2.mem, u.mem, m, base);
}

/// What a chunk leaves in a mixed cache is what appending its rows' keys and
/// values one after the other leaves there.
pub proof fn law_chunk_caches_every_row_in_turn<T>(
    k: Machine<T>,
    h: Held<T>,
    c: ConfigModel,
    gated: bool,
    m: PlaneModel,
    max_seq: u32,
    pos: u32,
    rows: u32,
    scoped: bool,
    b: Buf,
    i: int,
)
    requires
        evicts_in_place(k),
        dims_fit(c, rows as int),
        can_append_mixed(c, m, max_seq, pos as int, rows as int),
        caches(b),
    ensures
        ({
            let attend = chunk_attend_mixed_ops(c, m, pos, rows);
            let mid = done(k, h, norm_ops(c, rows) + chunk_qkv_ops(c, gated, rows, pos));
            let u = done(k, h, ops_of(chunk_steps(c, gated, attend, pos, rows, scoped)));
            &&& (u.mem)(b, i) == after_each(
                storing(k, mid.mem),
                mid.mem,
                m,
                pos as int,
                0,
                rows as nat,
            )(b, i)
            &&& (mid.mem)(b, i) == (h.mem)(b, i)
        }),
{
    let (h1, h2, h3) = lemma_chunk_stages(k, h, c, gated, m, pos, rows, scoped);
    let a = norm_ops(c, rows) + chunk_qkv_ops(c, gated, rows, pos);
    let attend = chunk_attend_mixed_ops(c, m, pos, rows);
    assert(rows * (m.n_kv_heads * m.head_dim) == rows * kv_dim(c));
    law_chunk_leaves_what_its_rows_leave(
        storing(k, h1.mem),
        h1.mem,
        m,
        pos as int,
        rows as int,
    );
    super::lemma_keeps_element(k, h2, attend.last(), b, i);
    lemma_keeps_place(k, h3, chunk_out_ops(c, gated, rows), b, i);
    lemma_keeps_place(k, h, a, b, i);
}

/// A decoded token through a full-attention layer with a mixed cache gets
/// what a row of a chunk at its position gets, and the cache what appending
/// its key and value leaves there.
pub proof fn law_token_attends_to_a_mixed_cache<T>(
    k: Machine<T>,
    h: Held<T>,
    c: ConfigModel,
    gated: bool,
    m: PlaneModel,
    max_seq: u32,
    pos: u32,
    n_splits: u32,
    scoped: bool,
)
    requires
        evicts_in_place(k),
        dims_fit(c, 1),
        2 * c.head_dim <= u32::MAX,
        can_append(c, AttnCacheModel::Mixed(m), max_seq, pos as int, 1),
    ensures
        ({
            let cache = AttnCacheModel::Mixed(m);
            let mid = done(k, h, token_qkv_ops(c, gated, pos));
            let u = done(
                k,
                h,
                ops_of(attention_steps(c, gated, cache, max_seq, pos, n_splits, scoped)),
            );
            let base = appended(m.layout, pos as int).window_base;
            &&& residual(u, c.embedding_length, 0) == mixed_in(
                k,
                c,
                gated,
                cache_of(u.mem, m, base),
                pos as int,
                residual(h, c.embedding_length, 0),
            )
            &&& forall|b: Buf, i: int|
                caches(b) ==> #[trigger] (u.mem)(b, i) == after_ops(
                    storing(k, mid.mem),
                    mid.mem,
                    append_ops(m, pos as int),
                    0,
                )(b, i)
            &&& forall|b: Buf, i: int|
                caches(b) ==> #[trigger] (mid.mem)(b, i) == (h.mem)(b, i)
        }),
{
    let cache = AttnCacheModel::Mixed(m);
    lemma_attention_ops(c, gated, cache, max_seq, pos, n_splits, scoped);
    law_token_is_projected(k, h, c, gated, pos);
    let a = token_qkv_ops(c, gated, pos);
    let attend = attend_ops(c, cache, max_seq, pos);
    let out = out_ops(c, gated);
    lemma_in_turn(k, h, a + attend, out);
    lemma_in_turn(k, h, a, attend);
    let h1 = done(k, h, a);
    let append = append_ops(m, pos as int);
    let h2 = done(k, h1, append);
    let h3 = done(k, h1, attend);
    lemma_one_more(k, h1, append, attend.last());
    assert(attend =~= append.push(attend.last()));
    lemma_append_moves(m, pos as int);
    lemma_moved(k, h1, append);
    lemma_token_qkv_changes(c, gated, pos, Buf::X);
    lemma_keeps_all(k, h, a, Buf::X, 0, c.embedding_length as int);
    let (q, hidden) = (q_dim(c), c.embedding_length as int);
    assert(row(h2.mem, Buf::AttnQ, 0, q) =~= row(h1.mem, Buf::AttnQ, 0, q));
    assert(row(h2.mem, Buf::AttnGate, 0, q) =~= row(h1.mem, Buf::AttnGate, 0, q));
    assert(row(h2.mem, Buf::X, 0, hidden) =~= row(h1.mem, Buf::X, 0, hidden));
    let base = appended(m.layout, pos as int).window_base;
    let view = cache_of(h2.mem, m, base);
    let x = residual(h, c.embedding_length, 0);
    lemma_attends(k, h2, h3, c, gated, view, 1, pos as int, 0, x, false);
    let u = done(k, h3, out);
    assert forall|b: Buf, at: int, n: int| caches(b) implies #[trigger] row(u.mem, b, at, n)
        == row(h2.mem, b, at, n) by {
        lemma_keeps(k, h2, attend.last(), b, at, n);
        lemma_keeps_all(k, h3, out, b, at, n);
    }
    lemma_same_cache(h2.mem, u.mem, m, base);
    assert forall|b: Buf, i: int| caches(b) implies #[trigger] (u.mem)(b, i) == (h2.mem)(b, i) by {
        assert(row(u.mem, b, i, 1) == row(h2.mem, b, i, 1));
        assert(row(u.mem, b, i, 1)[0] == row(h2.mem, b, i, 1)[0]);
    }
    assert forall|b: Buf, i: int| caches(b) implies #[trigger] (h1.mem)(b, i) == (h.mem)(b, i) by {
        lemma_token_qkv_changes(c, gated, pos, b);
        lemma_keeps_place(k, h, a, b, i);
    }
}

/// Where appending one position to a mixed cache leaves its key and value:
/// at the position itself in the sink, or in the window, at its distance from
/// where the window then starts.
pub proof fn law_appended_position_is_found<T>(
    d: DeviceModel<T>,
    mem: Memory<T>,
    m: PlaneModel,
    pos: int,
    base: int,
    head: int,
    e: int,
)
    requires
        m.valid(),
        m.layout.is_next(pos),
        pos <= u32::MAX,
        0 <= head < m.n_kv_heads,
        0 <= e < m.head_dim,
    ensures
        ({
            let l = m.layout;
            let now = after_ops(d, mem, append_ops(m, pos), base);
            let key = (d.rows)(KvDtype::F16, Buf::AttnK, base + head * m.head_dim + e);
            let value = (d.rows)(KvDtype::F16, Buf::AttnV, base + head * m.head_dim + e);
            if pos < l.sink_len {
                let at = place(l.sink_len, m.head_dim, head, pos, e);
                now(Buf::SinkK, at) == key && now(Buf::SinkV, at) == value
            } else {
                let from = appended(l, pos).window_base;
                let at = place(l.window_len, m.head_dim, head, pos - from, e);
                &&& from <= pos < from + l.window_len
                &&& now(Buf::WindowK, at) == key && now(Buf::WindowV, at) == value
            }
        }),
{
    let l = m.layout;
    let width = m.n_kv_heads * m.head_dim;
    let heads = m.n_kv_heads as nat;
    crate::qwen35::cache::mixed::lemma_lens_fit(m, 1);
    assert(1 * l.window_len == l.window_len);
    assert((0 * width) == 0) by (nonlinear_arith);
    if pos < l.sink_len {
        let g = Grid { heads: m.n_kv_heads, span: l.sink_len, head_dim: m.head_dim };
        lemma_row_by_head(
            d,
            mem,
            KvDtype::F16,
            Buf::SinkK,
            Buf::SinkV,
            g,
            pos,
            heads,
            base,
            width,
        );
        assert(Grid { heads: heads as int, ..g } == g);
        lemma_place(g, head, pos, e);
    } else {
        let slot = pos - appended(l, pos).window_base;
        let g = Grid { heads: m.n_kv_heads, span: l.window_len, head_dim: m.head_dim };
        let evict = if pos == l.window_end() {
            evict_ops(m, l.blocks() as u32)
        } else {
            Seq::empty()
        };
        let rows = row_ops(
            KvDtype::F16,
            Buf::WindowK,
            Buf::WindowV,
            l.window_len as u32,
            slot as u32,
            heads,
            m.head_dim as u32,
        );
        assert(append_ops(m, pos) == evict + rows);
        lemma_ops_in_turn(d, mem, evict, rows, base);
        lemma_row_by_head(
            d,
            after_ops(d, mem, evict, base),
            KvDtype::F16,
            Buf::WindowK,
            Buf::WindowV,
            g,
            slot,
            heads,
            base,
            width,
        );
        assert(Grid { heads: heads as int, ..g } == g);
        lemma_place(g, head, slot, e);
    }
}

/// The window is evicted only when a position overflows it, and the block it
/// goes to is the one that the positions it holds make up when they are
/// counted from the end of the sink.
pub proof fn law_evicted_block_follows_the_others(m: PlaneModel, pos: int, i: int)
    requires
        m.valid(),
        m.layout.is_next(pos),
        0 <= i < append_ops(m, pos).len(),
    ensures
        match append_ops(m, pos)[i] {
            Op::QuantizeEvictK { block, .. } => {
                &&& pos == m.layout.window_base + m.layout.window_len
                &&& m.layout.sink_len + block * m.layout.window_len == m.layout.window_base
            },
            Op::QuantizeEvictV { block, .. } => {
                &&& pos == m.layout.window_base + m.layout.window_len
                &&& m.layout.sink_len + block * m.layout.window_len == m.layout.window_base
            },
            _ => true,
        },
{
    let l = m.layout;
    lemma_append_moves(m, pos);
    let rows = row_ops(
        KvDtype::F16,
        Buf::WindowK,
        Buf::WindowV,
        l.window_len as u32,
        (pos - appended(l, pos).window_base) as u32,
        m.n_kv_heads as nat,
        m.head_dim as u32,
    );
    let sink = row_ops(
        KvDtype::F16,
        Buf::SinkK,
        Buf::SinkV,
        l.sink_len as u32,
        pos as u32,
        m.n_kv_heads as nat,
        m.head_dim as u32,
    );
    lemma_rows_evict_nothing(
        Buf::WindowK,
        Buf::WindowV,
        l.window_len as u32,
        (pos - appended(l, pos).window_base) as u32,
        m.n_kv_heads as nat,
        m.head_dim as u32,
    );
    lemma_rows_evict_nothing(
        Buf::SinkK,
        Buf::SinkV,
        l.sink_len as u32,
        pos as u32,
        m.n_kv_heads as nat,
        m.head_dim as u32,
    );
    if pos >= l.sink_len {
        let evict = if pos == l.window_end() {
            evict_ops(m, l.blocks() as u32)
        } else {
            Seq::empty()
        };
        assert(append_ops(m, pos) == evict + rows);
        if i >= evict.len() {
            assert(append_ops(m, pos)[i] == rows[i - evict.len()]);
        } else {
            crate::qwen35::cache::mixed::lemma_lens_fit(m, 1);
            vstd::arithmetic::div_mod::lemma_fundamental_div_mod(
                l.window_base - l.sink_len,
                l.window_len,
            );
            assert(l.blocks() * l.window_len == l.window_len * l.blocks()) by (nonlinear_arith);
            assert(l.blocks() <= m.bulk_cap) by (nonlinear_arith)
                requires
                    l.blocks() <= m.num_blocks_total,
                    m.bulk_cap == m.num_blocks_total * l.window_len,
                    1 <= l.window_len,
                    1 <= m.num_blocks_total,
            ;
        }
    } else {
        assert(append_ops(m, pos)[i] == sink[i]);
    }
}

proof fn lemma_rows_evict_nothing(
    k_dst: Buf,
    v_dst: Buf,
    span: u32,
    slot: u32,
    heads: nat,
    head_dim: u32,
)
    ensures
        forall|i: int|
            0 <= i < row_ops(KvDtype::F16, k_dst, v_dst, span, slot, heads, head_dim).len() ==> (
            #[trigger] row_ops(KvDtype::F16, k_dst, v_dst, span, slot, heads, head_dim)[i])
                is CastF16,
    decreases heads,
{
    if heads > 0 {
        let p = (heads - 1) as nat;
        lemma_rows_evict_nothing(k_dst, v_dst, span, slot, p, head_dim);
        let less = row_ops(KvDtype::F16, k_dst, v_dst, span, slot, p, head_dim);
        let all = row_ops(KvDtype::F16, k_dst, v_dst, span, slot, heads, head_dim);
        assert forall|i: int| 0 <= i < all.len() implies (#[trigger] all[i]) is CastF16 by {
            if i < less.len() {
                assert(all[i] == less[i]);
            }
        }
    }
}

} // verus!
