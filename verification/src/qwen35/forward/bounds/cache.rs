//! Operations on a layer's keys and values.

use super::token::{lemma_room, rows_fit};
use super::{lemma_allow_concat, lemma_allow_push, lemma_reach, Buffers};
use crate::load_opts::KvDtype;
use crate::qwen35::cache::hybrid::AttnCacheModel;
use crate::qwen35::cache::layout::{
    appended, lemma_slid_valid, segments, sink_rows, ChunkSegment, LayoutModel,
};
use crate::qwen35::cache::mixed::{
    append_chunk_ops, append_ops, evict_ops, lemma_lens_fit, scatter_op, segment_ops, segments_ops,
    PlaneModel,
};
use crate::qwen35::cache::plane::plane_fits;
use crate::qwen35::cache::rows::{lemma_slot_in_plane, row_op, row_ops, slot_at};
use crate::qwen35::forward::attention::attend_ops;
use crate::qwen35::forward::attention_chunk::{chunk_attend_dense_ops, chunk_attend_mixed_ops};
use crate::qwen35::forward::dims::{kv_dim, lemma_scaled};
use crate::qwen35::forward::layer::layer_at;
use crate::qwen35::forward::plan::{Buf, Op};
use vstd::prelude::*;

verus! {

/// Whether a plane has that many slots a head.
spec fn has_slots(b: Buffers, buf: Buf, span: int) -> bool {
    &&& b.room(buf) == Some(b.config.head_count_kv * span * b.config.head_dim)
    &&& b.config.head_count_kv * span * b.config.head_dim <= usize::MAX
}

proof fn lemma_rows(
    b: Buffers,
    dtype: KvDtype,
    k_dst: Buf,
    v_dst: Buf,
    span: u32,
    slot: u32,
    heads: nat,
)
    requires
        rows_fit(b, 1),
        has_slots(b, k_dst, span as int),
        has_slots(b, v_dst, span as int),
        slot < span,
        heads <= b.config.head_count_kv,
    ensures
        b.allow_all(row_ops(dtype, k_dst, v_dst, span, slot, heads, b.config.head_dim)),
    decreases heads,
{
    let c = b.config;
    let d = c.head_dim;
    if heads > 0 {
        let h = heads - 1;
        let before = row_ops(dtype, k_dst, v_dst, span, slot, h as nat, d);
        lemma_rows(b, dtype, k_dst, v_dst, span, slot, h as nat);
        lemma_room(b, 1);
        lemma_slot_in_plane(h, c.head_count_kv as int, span as int, slot as int, d as int);
        lemma_scaled(h, c.head_count_kv as int, d as int);
        assert(h * d + d <= c.head_count_kv * d) by (nonlinear_arith)
            requires
                h + 1 <= c.head_count_kv,
                0 <= d,
        ;
        let to = slot_at(h, span as int, slot as int, d as int);
        let k = row_op(dtype, Buf::AttnK, k_dst, h * d, to, d);
        let v = row_op(dtype, Buf::AttnV, v_dst, h * d, to, d);
        assert(b.allows(k));
        assert(b.allows(v));
        lemma_allow_push(b, before, k);
        lemma_allow_push(b, before.push(k), v);
    }
}

/// A mixed layer's cache, as the buffers have it.
pub open spec fn is_mixed_layer(b: Buffers, m: PlaneModel, pos: int, rows: int) -> bool {
    &&& b.cache == Some(AttnCacheModel::Mixed(m))
    &&& layer_at(b.config, b.cache, b.max_seq, pos)
    &&& 0 <= pos
    &&& pos + rows <= b.max_seq
}

proof fn lemma_mixed_room(b: Buffers, m: PlaneModel, pos: int, rows: int)
    requires
        is_mixed_layer(b, m, pos, rows),
    ensures
        has_slots(b, Buf::SinkK, m.layout.sink_len),
        has_slots(b, Buf::SinkV, m.layout.sink_len),
        has_slots(b, Buf::WindowK, m.layout.window_len),
        has_slots(b, Buf::WindowV, m.layout.window_len),
        b.room(Buf::BulkKCodes) == Some(m.n_kv_heads * m.bulk_cap * m.head_dim),
        b.room(Buf::BulkKScales) == Some(m.n_kv_heads * m.num_blocks_total * m.head_dim),
        b.room(Buf::BulkVCodes) == Some(m.n_kv_heads * m.bulk_cap * m.v_row()),
        b.room(Buf::BulkVScales) == Some(m.n_kv_heads * m.bulk_cap),
        0 <= m.v_row(),
{
    lemma_lens_fit(m, m.num_blocks_total);
}

proof fn lemma_evict(b: Buffers, m: PlaneModel, block: u32, pos: int, rows: int)
    requires
        rows_fit(b, 1),
        is_mixed_layer(b, m, pos, rows),
        block < m.num_blocks_total,
    ensures
        b.allow_all(evict_ops(m, block)),
{
    let (n, w, hd, cap) = (m.n_kv_heads, m.layout.window_len, m.head_dim, m.bulk_cap);
    let ops = evict_ops(m, block);
    lemma_mixed_room(b, m, pos, rows);
    lemma_lens_fit(m, m.num_blocks_total);
    assert(0 <= block * w && block * w + w <= m.num_blocks_total * w) by (nonlinear_arith)
        requires
            0 <= block,
            block + 1 <= m.num_blocks_total,
            1 <= w,
    ;
    lemma_reach(n, cap, block * w, w, hd);
    lemma_reach(n, cap, block * w, w, m.v_row());
    lemma_reach(n, cap, block * w, w, 1);
    lemma_reach(n, m.num_blocks_total, block as int, 1, hd);
    assert(n * cap * 1 == n * cap);
    assert(m.num_blocks_total <= cap) by (nonlinear_arith)
        requires
            cap == m.num_blocks_total * w,
            1 <= w,
            1 <= m.num_blocks_total,
    ;
    let k = ops[ops.len() - 2];
    let v = ops[ops.len() - 1];
    assert(b.allows(k));
    assert(b.allows(v));
    assert forall|i: int| 0 <= i < ops.len() implies b.allows(#[trigger] ops[i]) by {
        if i < ops.len() - 2 {
            assert(ops[i] is RotSim);
        }
    }
}

proof fn lemma_append(b: Buffers, m: PlaneModel, pos: u32)
    requires
        rows_fit(b, 1),
        is_mixed_layer(b, m, pos as int, 1),
    ensures
        b.allow_all(append_ops(m, pos as int)),
{
    let l = m.layout;
    let heads = m.n_kv_heads as nat;
    lemma_mixed_room(b, m, pos as int, 1);
    if pos < l.sink_len {
        lemma_rows(b, KvDtype::F16, Buf::SinkK, Buf::SinkV, l.sink_len as u32, pos, heads);
    } else {
        let slot = (pos - appended(l, pos as int).window_base) as u32;
        let rows = row_ops(
            KvDtype::F16,
            Buf::WindowK,
            Buf::WindowV,
            l.window_len as u32,
            slot,
            heads,
            m.head_dim as u32,
        );
        lemma_rows(b, KvDtype::F16, Buf::WindowK, Buf::WindowV, l.window_len as u32, slot, heads);
        if pos == l.window_end() {
            lemma_block_has_room(m, l);
            lemma_evict(b, m, l.blocks() as u32, pos as int, 1);
            lemma_allow_concat(b, evict_ops(m, l.blocks() as u32), rows);
        } else {
            assert(Seq::<Op>::empty() + rows =~= rows);
        }
    }
}

/// A full window whose end is before the plane's has a block to go to.
proof fn lemma_block_has_room(m: PlaneModel, l: LayoutModel)
    requires
        m.valid(),
        l.valid(),
        l.sink_len == m.layout.sink_len,
        l.window_len == m.layout.window_len,
        l.window_end() < m.layout.sink_len + m.bulk_cap,
    ensures
        0 <= l.blocks() < m.num_blocks_total,
        l.blocks() as u32 == l.blocks(),
{
    let (w, b) = (l.window_len, l.blocks());
    vstd::arithmetic::div_mod::lemma_fundamental_div_mod(l.window_base - l.sink_len, w);
    vstd::arithmetic::div_mod::lemma_div_pos_is_pos(l.window_base - l.sink_len, w);
    assert(b < m.num_blocks_total) by (nonlinear_arith)
        requires
            w * b + w < m.num_blocks_total * w,
            1 <= w,
    ;
    assert(m.num_blocks_total <= m.bulk_cap) by (nonlinear_arith)
        requires
            m.bulk_cap == m.num_blocks_total * w,
            1 <= w,
            1 <= m.num_blocks_total,
    ;
}

/// Appending one position and attending over everything up to it.
pub proof fn lemma_attend(b: Buffers, cache: AttnCacheModel, pos: u32)
    requires
        rows_fit(b, 1),
        b.cache == Some(cache),
        layer_at(b.config, b.cache, b.max_seq, pos as int),
        plane_fits(b.config.head_count_kv, b.max_seq, b.config.head_dim),
        pos < b.max_seq,
    ensures
        b.allow_all(attend_ops(b.config, cache, b.max_seq, pos)),
{
    let c = b.config;
    let ops = attend_ops(c, cache, b.max_seq, pos);
    lemma_room(b, 1);
    match cache {
        AttnCacheModel::Dense(dtype) => {
            let rows = row_ops(
                dtype,
                Buf::PlaneK,
                Buf::PlaneV,
                b.max_seq,
                pos,
                c.head_count_kv as nat,
                c.head_dim,
            );
            lemma_rows(
                b,
                dtype,
                Buf::PlaneK,
                Buf::PlaneV,
                b.max_seq,
                pos,
                c.head_count_kv as nat,
            );
            lemma_reach(
                c.head_count_kv as int,
                b.max_seq as int,
                0,
                pos + 1,
                c.head_dim as int,
            );
            assert(b.allows(ops[ops.len() - 1]));
            lemma_allow_push(b, rows, ops[ops.len() - 1]);
        },
        AttnCacheModel::Mixed(m) => {
            lemma_append(b, m, pos);
            assert(b.allows(ops[ops.len() - 1]));
            lemma_allow_push(b, append_ops(m, pos as int), ops[ops.len() - 1]);
        },
    }
}

/// Appending a chunk to a dense plane and attending.
pub proof fn lemma_attend_chunk_dense(b: Buffers, dtype: KvDtype, pos: u32, rows: u32)
    requires
        rows_fit(b, rows as int),
        b.cache == Some(AttnCacheModel::Dense(dtype)),
        pos + rows <= b.max_seq,
    ensures
        b.allow_all(chunk_attend_dense_ops(b.config, dtype, b.max_seq, pos, rows)),
{
    let c = b.config;
    let ops = chunk_attend_dense_ops(c, dtype, b.max_seq, pos, rows);
    let (n, s, d) = (c.head_count_kv as int, b.max_seq as int, c.head_dim as int);
    lemma_room(b, rows as int);
    lemma_reach(n, s, pos as int, rows as int, d);
    lemma_reach(n, s, 0, pos + rows, d);
    assert(b.allows(ops[0]));
    assert(b.allows(ops[1]));
    assert forall|i: int| 0 <= i < ops.len() implies b.allows(#[trigger] ops[i]) by {
        assert(i == 0 || i == 1);
    }
}

/// A run of a chunk's rows is inside the chunk and the window, and a block it
/// fills is inside the bulk region.
spec fn segment_fits(m: PlaneModel, s: ChunkSegment, rows: int) -> bool {
    &&& s.chunk_row_start + s.len <= rows
    &&& s.window_slot_start + s.len <= m.layout.window_len
    &&& s.evict_after matches Some(block) ==> block < m.num_blocks_total
}

proof fn lemma_segments_fit(m: PlaneModel, l: LayoutModel, pos: int, row: int, n: int, rows: int)
    requires
        m.valid(),
        l.valid(),
        l.sink_len == m.layout.sink_len,
        l.window_len == m.layout.window_len,
        0 <= n,
        0 <= row,
        row + n <= rows <= u32::MAX,
        pos <= l.window_end(),
        n > 0 ==> l.window_base <= pos,
        pos + n <= l.sink_len + m.bulk_cap,
    ensures
        forall|k: int|
            0 <= k < segments(l, pos, row, n).len() ==> segment_fits(
                m,
                #[trigger] segments(l, pos, row, n)[k],
                rows,
            ),
    decreases n, (if pos < l.window_end() { 0int } else { 1int }),
{
    if n > 0 {
        let room = l.window_end() - pos;
        let all = segments(l, pos, row, n);
        if n > room {
            lemma_slid_valid(l);
            lemma_block_has_room(m, l);
            lemma_segments_fit(m, l.slid(), pos + room, row + room, n - room, rows);
            let rest = segments(l.slid(), pos + room, row + room, n - room);
            assert forall|k: int| 0 <= k < all.len() implies segment_fits(
                m,
                #[trigger] all[k],
                rows,
            ) by {
                if k > 0 {
                    assert(all[k] == rest[k - 1]);
                }
            }
        }
    }
}

proof fn lemma_scatter(
    b: Buffers,
    m: PlaneModel,
    k_dst: Buf,
    v_dst: Buf,
    span: int,
    from: int,
    len: u32,
    slot: u32,
    rows: int,
)
    requires
        rows_fit(b, rows),
        has_slots(b, k_dst, span),
        has_slots(b, v_dst, span),
        m.n_kv_heads == b.config.head_count_kv,
        m.head_dim == b.config.head_dim,
        0 <= from,
        from + len <= rows,
        slot + len <= span <= u32::MAX,
    ensures
        b.allows(scatter_op(m, k_dst, v_dst, span, from, len, slot)),
{
    let c = b.config;
    let kv = kv_dim(c);
    lemma_room(b, rows);
    lemma_reach(
        c.head_count_kv as int,
        span,
        slot as int,
        len as int,
        c.head_dim as int,
    );
    lemma_scaled(from, rows, kv);
    assert(from * kv + len * kv <= rows * kv) by (nonlinear_arith)
        requires
            from + len <= rows,
            0 <= kv,
    ;
    lemma_scaled(0, len as int, kv);
}

proof fn lemma_segments_ops(
    b: Buffers,
    m: PlaneModel,
    s: Seq<ChunkSegment>,
    pos: int,
    rows: int,
)
    requires
        rows_fit(b, rows),
        is_mixed_layer(b, m, pos, rows),
        forall|k: int| 0 <= k < s.len() ==> segment_fits(m, #[trigger] s[k], rows),
    ensures
        b.allow_all(segments_ops(m, s)),
    decreases s.len(),
{
    if s.len() > 0 {
        let seg = s.last();
        let rest = s.drop_last();
        assert(segment_fits(m, s[s.len() - 1], rows));
        lemma_segments_ops(b, m, rest, pos, rows);
        lemma_mixed_room(b, m, pos, rows);
        let w = m.layout.window_len;
        let scatter = scatter_op(
            m,
            Buf::WindowK,
            Buf::WindowV,
            w,
            seg.chunk_row_start as int,
            seg.len,
            seg.window_slot_start,
        );
        lemma_scatter(
            b,
            m,
            Buf::WindowK,
            Buf::WindowV,
            w,
            seg.chunk_row_start as int,
            seg.len,
            seg.window_slot_start,
            rows,
        );
        let moved = if seg.len > 0 {
            seq![scatter]
        } else {
            Seq::empty()
        };
        assert(b.allow_all(moved));
        let evicted = match seg.evict_after {
            None => Seq::empty(),
            Some(block) => evict_ops(m, block),
        };
        match seg.evict_after {
            None => {},
            Some(block) => {
                lemma_evict(b, m, block, pos, rows);
            },
        }
        lemma_allow_concat(b, moved, evicted);
        lemma_allow_concat(b, segments_ops(m, rest), segment_ops(m, seg));
    }
}

/// Appending a chunk to a mixed cache and attending.
pub proof fn lemma_attend_chunk_mixed(b: Buffers, m: PlaneModel, pos: u32, rows: u32)
    requires
        rows_fit(b, rows as int),
        is_mixed_layer(b, m, pos as int, rows as int),
    ensures
        b.allow_all(chunk_attend_mixed_ops(b.config, m, pos, rows)),
{
    let c = b.config;
    let l = m.layout;
    let sink = sink_rows(l, pos as int, rows as int);
    let runs = segments(l, pos + sink, sink, rows - sink);
    lemma_room(b, rows as int);
    lemma_mixed_room(b, m, pos as int, rows as int);
    lemma_segments_fit(m, l, pos + sink, sink, rows - sink, rows as int);
    lemma_segments_ops(b, m, runs, pos as int, rows as int);
    let head = if sink > 0 {
        seq![scatter_op(m, Buf::SinkK, Buf::SinkV, l.sink_len, 0, sink as u32, pos)]
    } else {
        Seq::empty()
    };
    if sink > 0 {
        lemma_scatter(
            b,
            m,
            Buf::SinkK,
            Buf::SinkV,
            l.sink_len,
            0,
            sink as u32,
            pos,
            rows as int,
        );
    }
    assert(b.allow_all(head));
    lemma_allow_concat(b, head, segments_ops(m, runs));
    let all = append_chunk_ops(m, pos as int, rows as int);
    assert(all == head + segments_ops(m, runs));
    let ops = chunk_attend_mixed_ops(c, m, pos, rows);
    assert(b.allows(ops[ops.len() - 1]));
    lemma_allow_push(b, all, ops[ops.len() - 1]);
}

} // verus!
