//! What the operations of an append leave in a layer's buffers: a chunk and
//! its rows one at a time leave the same.

use super::layout::{
    append_each_writes, append_writes, appended, law_chunk_append_is_serial_append,
    lemma_appended_next, segment_writes, segments, segments_writes, sink_rows, sink_writes,
    window_writes, CacheWrite, ChunkSegment,
};
use super::mixed::{
    append_chunk_ops, append_ops, evict_ops, scatter_op, segment_ops, segments_ops, PlaneModel,
};
use super::plane::plane_fits;
use super::rows::{row_op, row_ops, slot_at};
use crate::load_opts::KvDtype;
use crate::qwen35::forward::plan::{start, At, Buf, Op};
use vstd::prelude::*;

verus! {

/// What every element of every buffer holds.
pub type Memory<T> = spec_fn(Buf, int) -> T;

/// How operations act on a layer's buffers.
#[verifier::reject_recursive_types(T)]
pub struct DeviceModel<T> {
    /// An element of the rows that are appended, as stored in a precision.
    pub rows: spec_fn(KvDtype, Buf, int) -> T,
    /// What an operation that moves no appended row does.
    pub other: spec_fn(Memory<T>, Op) -> Memory<T>,
}

/// How a buffer's elements are laid out: `span` slots of `head_dim` elements
/// for every head.
pub struct Grid {
    pub heads: int,
    pub span: int,
    pub head_dim: int,
}

impl Grid {
    /// The head an element belongs to.
    pub open spec fn head_of(self, at: int) -> int {
        at / (self.span * self.head_dim)
    }

    /// The slot of its head that an element lies in.
    pub open spec fn slot_of(self, at: int) -> int {
        (at % (self.span * self.head_dim)) / self.head_dim
    }

    /// Where in its slot an element lies.
    pub open spec fn elem_of(self, at: int) -> int {
        (at % (self.span * self.head_dim)) % self.head_dim
    }

    /// An element lies in one of `n` slots of some head.
    pub open spec fn covers(self, at: int, slot: int, n: int) -> bool {
        &&& self.span > 0
        &&& self.head_dim > 0
        &&& 0 <= self.head_of(at) < self.heads
        &&& slot <= self.slot_of(at) < slot + n
    }
}

/// A run of elements of `src`, `base` elements further on, copied to `dst`.
pub open spec fn copied<T>(
    d: DeviceModel<T>,
    mem: Memory<T>,
    dtype: KvDtype,
    src: At,
    dst: At,
    len: int,
    base: int,
) -> Memory<T> {
    |b: Buf, at: int|
        if b == dst.buf && dst.offset <= at < dst.offset + len {
            (d.rows)(dtype, src.buf, base + src.offset + (at - dst.offset))
        } else {
            mem(b, at)
        }
}

/// `n` rows of `width` elements, from element `from` of `src` on, one into
/// each of `n` consecutive slots of every head.
pub open spec fn scattered<T>(
    d: DeviceModel<T>,
    mem: Memory<T>,
    dtype: KvDtype,
    src: Buf,
    from: int,
    width: int,
    dst: Buf,
    g: Grid,
    slot: int,
    n: int,
) -> Memory<T> {
    |b: Buf, at: int|
        if b == dst && g.covers(at, slot, n) {
            (d.rows)(
                dtype,
                src,
                from + (g.slot_of(at) - slot) * width + g.head_of(at) * g.head_dim + g.elem_of(at),
            )
        } else {
            mem(b, at)
        }
}

/// What one operation leaves, where the row buffers hold the appended rows
/// from element `base` on.
pub open spec fn after_op<T>(d: DeviceModel<T>, mem: Memory<T>, op: Op, base: int) -> Memory<T> {
    match op {
        Op::CastF16 { src, dst, len } => copied(d, mem, KvDtype::F16, src, dst, len as int, base),
        Op::CopyDevice { dst, src, len } => copied(
            d,
            mem,
            KvDtype::F32,
            src,
            dst,
            len as int,
            base,
        ),
        Op::ScatterKv {
            dtype,
            k_src,
            v_src,
            k_dst,
            v_dst,
            n_kv_heads,
            head_dim,
            max_seq,
            rows,
            pos_base,
        } => {
            let g = Grid {
                heads: n_kv_heads as int,
                span: max_seq as int,
                head_dim: head_dim as int,
            };
            let width = n_kv_heads * head_dim;
            let k = scattered(
                d,
                mem,
                dtype,
                k_src.buf,
                base + k_src.offset,
                width,
                k_dst,
                g,
                pos_base as int,
                rows as int,
            );
            scattered(
                d,
                k,
                dtype,
                v_src.buf,
                base + v_src.offset,
                width,
                v_dst,
                g,
                pos_base as int,
                rows as int,
            )
        },
        _ => (d.other)(mem, op),
    }
}

/// What a run of operations leaves.
pub open spec fn after_ops<T>(
    d: DeviceModel<T>,
    mem: Memory<T>,
    ops: Seq<Op>,
    base: int,
) -> Memory<T>
    decreases ops.len(),
{
    if ops.len() == 0 {
        mem
    } else {
        after_op(d, after_ops(d, mem, ops.drop_last(), base), ops.last(), base)
    }
}

/// What appending `n` rows one at a time leaves. Each row is in the row
/// buffers on its own when it is appended.
pub open spec fn after_each<T>(
    d: DeviceModel<T>,
    mem: Memory<T>,
    m: PlaneModel,
    pos: int,
    row: int,
    n: nat,
) -> Memory<T>
    decreases n,
{
    if n == 0 {
        mem
    } else {
        after_each(
            d,
            after_ops(d, mem, append_ops(m, pos), row * (m.n_kv_heads * m.head_dim)),
            m.with_layout(appended(m.layout, pos)),
            pos + 1,
            row + 1,
            (n - 1) as nat,
        )
    }
}

/// The same for a dense plane of `max_seq` positions.
pub open spec fn after_each_dense<T>(
    d: DeviceModel<T>,
    mem: Memory<T>,
    dtype: KvDtype,
    g: Grid,
    pos: int,
    n: nat,
) -> Memory<T>
    decreases n,
{
    if n == 0 {
        mem
    } else {
        let k = n - 1;
        after_ops(
            d,
            after_each_dense(d, mem, dtype, g, pos, k as nat),
            row_ops(
                dtype,
                Buf::PlaneK,
                Buf::PlaneV,
                g.span as u32,
                (pos + k) as u32,
                g.heads as nat,
                g.head_dim as u32,
            ),
            k * (g.heads * g.head_dim),
        )
    }
}

/// Operations in two runs.
pub proof fn lemma_ops_in_turn<T>(d: DeviceModel<T>, mem: Memory<T>, a: Seq<Op>, b: Seq<Op>, base: int)
    ensures
        after_ops(d, mem, a + b, base) == after_ops(d, after_ops(d, mem, a, base), b, base),
    decreases b.len(),
{
    if b.len() == 0 {
        assert(a + b =~= a);
    } else {
        lemma_ops_in_turn(d, mem, a, b.drop_last(), base);
        assert((a + b).drop_last() =~= a + b.drop_last());
    }
}

/// Which elements a head's slot covers.
pub proof fn lemma_slot_elements(g: Grid, head: int, slot: int, at: int)
    requires
        0 < g.head_dim,
        0 <= slot < g.span,
        0 <= head,
    ensures
        ({
            let s = slot_at(head, g.span, slot, g.head_dim);
            &&& (s <= at < s + g.head_dim) <==> (g.head_of(at) == head && g.slot_of(at) == slot)
            &&& s <= at < s + g.head_dim ==> g.elem_of(at) == at - s
        }),
{
    let hd = g.head_dim;
    let w = g.span * hd;
    let s = slot_at(head, g.span, slot, hd);
    assert(w > 0) by (nonlinear_arith)
        requires
            0 < g.span,
            0 < hd,
            w == g.span * hd,
    ;
    assert(s == head * w + slot * hd) by (nonlinear_arith)
        requires
            s == head * g.span * hd + slot * hd,
            w == g.span * hd,
    ;
    assert(0 <= slot * hd && slot * hd + hd <= w) by (nonlinear_arith)
        requires
            0 <= slot,
            slot + 1 <= g.span,
            0 < hd,
            w == g.span * hd,
    ;
    if s <= at < s + hd {
        let j = at - s;
        vstd::arithmetic::div_mod::lemma_fundamental_div_mod_converse(at, w, head, slot * hd + j);
        vstd::arithmetic::div_mod::lemma_fundamental_div_mod_converse(slot * hd + j, hd, slot, j);
    }
    if g.head_of(at) == head && g.slot_of(at) == slot {
        vstd::arithmetic::div_mod::lemma_fundamental_div_mod(at, w);
        vstd::arithmetic::div_mod::lemma_fundamental_div_mod(at % w, hd);
        assert(w * head == head * w && hd * slot == slot * hd) by (nonlinear_arith);
        vstd::arithmetic::div_mod::lemma_mod_bound(at % w, hd);
    }
}

/// `n` rows put into consecutive slots of every head, keys and values.
pub open spec fn rows_put<T>(
    d: DeviceModel<T>,
    mem: Memory<T>,
    dtype: KvDtype,
    k_dst: Buf,
    v_dst: Buf,
    g: Grid,
    slot: int,
    from: int,
    n: int,
    width: int,
) -> Memory<T> {
    let k = scattered(d, mem, dtype, Buf::AttnK, from, width, k_dst, g, slot, n);
    scattered(d, k, dtype, Buf::AttnV, from, width, v_dst, g, slot, n)
}

/// Moving a row head by head puts it into its slot of every head.
pub proof fn lemma_row_by_head<T>(
    d: DeviceModel<T>,
    mem: Memory<T>,
    dtype: KvDtype,
    k_dst: Buf,
    v_dst: Buf,
    g: Grid,
    slot: int,
    heads: nat,
    base: int,
    width: int,
)
    requires
        k_dst != v_dst,
        0 <= slot < g.span <= u32::MAX,
        0 <= g.head_dim <= u32::MAX,
        heads <= g.heads,
        g.heads * g.span * g.head_dim <= usize::MAX,
    ensures
        after_ops(
            d,
            mem,
            row_ops(
                dtype,
                k_dst,
                v_dst,
                g.span as u32,
                slot as u32,
                heads,
                g.head_dim as u32,
            ),
            base,
        ) == rows_put(
            d,
            mem,
            dtype,
            k_dst,
            v_dst,
            Grid { heads: heads as int, ..g },
            slot,
            base,
            1,
            width,
        ),
    decreases heads,
{
    let hd = g.head_dim;
    let ops = row_ops(dtype, k_dst, v_dst, g.span as u32, slot as u32, heads, hd as u32);
    let here = Grid { heads: heads as int, ..g };
    let want = rows_put(d, mem, dtype, k_dst, v_dst, here, slot, base, 1, width);
    if heads == 0 {
        assert(after_ops(d, mem, ops, base) =~= want);
    } else {
        let h = heads - 1;
        let before = row_ops(dtype, k_dst, v_dst, g.span as u32, slot as u32, h as nat, hd as u32);
        let less = Grid { heads: h, ..g };
        lemma_row_by_head(d, mem, dtype, k_dst, v_dst, g, slot, h as nat, base, width);
        let to = slot_at(h, g.span, slot, hd);
        super::rows::lemma_slot_in_plane(h, g.heads, g.span, slot, hd);
        let k = row_op(dtype, Buf::AttnK, k_dst, h * hd, to, hd as u32);
        let v = row_op(dtype, Buf::AttnV, v_dst, h * hd, to, hd as u32);
        assert(ops =~= before.push(k).push(v));
        assert(ops.drop_last() =~= before.push(k));
        assert(before.push(k).drop_last() =~= before);
        let m0 = rows_put(d, mem, dtype, k_dst, v_dst, less, slot, base, 1, width);
        let m1 = after_op(d, m0, k, base);
        let m2 = after_op(d, m1, v, base);
        assert(after_ops(d, mem, before.push(k), base) == m1);
        assert(after_ops(d, mem, ops, base) == m2);
        assert forall|b: Buf, at: int| #[trigger] m2(b, at) == want(b, at) by {
            if hd > 0 {
                lemma_slot_elements(g, h, slot, at);
                assert(here.slot_of(at) == less.slot_of(at) == g.slot_of(at));
                assert(here.head_of(at) == less.head_of(at) == g.head_of(at));
                assert((slot - slot) * width == 0) by (nonlinear_arith);
                assert(to <= at < to + hd <==> g.head_of(at) == h && g.slot_of(at) == slot);
            }
        }
        assert(m2 =~= want);
    }
}

/// Rows put into slots in one go are there as if put one after the other.
proof fn lemma_rows_one_by_one<T>(
    d: DeviceModel<T>,
    mem: Memory<T>,
    dtype: KvDtype,
    k_dst: Buf,
    v_dst: Buf,
    g: Grid,
    slot: int,
    from: int,
    n: int,
    width: int,
)
    requires
        k_dst != v_dst,
        1 <= n,
    ensures
        rows_put(d, mem, dtype, k_dst, v_dst, g, slot, from, n, width) == rows_put(
            d,
            rows_put(d, mem, dtype, k_dst, v_dst, g, slot, from, n - 1, width),
            dtype,
            k_dst,
            v_dst,
            g,
            slot + n - 1,
            from + (n - 1) * width,
            1,
            width,
        ),
{
    let a = rows_put(d, mem, dtype, k_dst, v_dst, g, slot, from, n, width);
    let less = rows_put(d, mem, dtype, k_dst, v_dst, g, slot, from, n - 1, width);
    let last = slot + n - 1;
    let b = rows_put(d, less, dtype, k_dst, v_dst, g, last, from + (n - 1) * width, 1, width);
    assert forall|buf: Buf, at: int| #[trigger] a(buf, at) == b(buf, at) by {
        let t = g.slot_of(at);
        if t == last {
            assert((t - slot) * width == (n - 1) * width + (t - last) * width) by (nonlinear_arith)
                requires
                    t - slot == n - 1,
                    t - last == 0,
            ;
        }
    }
    assert(a =~= b);
}

/// No rows put anywhere leave everything as it was.
proof fn lemma_no_rows<T>(
    d: DeviceModel<T>,
    mem: Memory<T>,
    dtype: KvDtype,
    k_dst: Buf,
    v_dst: Buf,
    g: Grid,
    slot: int,
    from: int,
    width: int,
)
    ensures
        rows_put(d, mem, dtype, k_dst, v_dst, g, slot, from, 0, width) == mem,
{
    assert(rows_put(d, mem, dtype, k_dst, v_dst, g, slot, from, 0, width) =~= mem);
}

/// A chunk written into a dense plane leaves there what its rows leave when
/// they are written one at a time.
pub proof fn law_dense_chunk_leaves_what_its_rows_leave<T>(
    d: DeviceModel<T>,
    mem: Memory<T>,
    dtype: KvDtype,
    n_kv_heads: u32,
    max_seq: u32,
    head_dim: u32,
    pos: u32,
    rows: u32,
)
    requires
        plane_fits(n_kv_heads, max_seq, head_dim),
        pos + rows <= max_seq,
    ensures
        ({
            let g = Grid {
                heads: n_kv_heads as int,
                span: max_seq as int,
                head_dim: head_dim as int,
            };
            after_op(
                d,
                mem,
                Op::ScatterKv {
                    dtype,
                    k_src: start(Buf::AttnK),
                    v_src: start(Buf::AttnV),
                    k_dst: Buf::PlaneK,
                    v_dst: Buf::PlaneV,
                    n_kv_heads,
                    head_dim,
                    max_seq,
                    rows,
                    pos_base: pos,
                },
                0,
            ) == after_each_dense(d, mem, dtype, g, pos as int, rows as nat)
        }),
{
    let g = Grid { heads: n_kv_heads as int, span: max_seq as int, head_dim: head_dim as int };
    lemma_dense_rows(d, mem, dtype, g, pos as int, rows as nat);
}

proof fn lemma_dense_rows<T>(
    d: DeviceModel<T>,
    mem: Memory<T>,
    dtype: KvDtype,
    g: Grid,
    pos: int,
    n: nat,
)
    requires
        0 <= g.heads,
        g.span <= u32::MAX,
        0 <= g.head_dim <= u32::MAX,
        g.heads * g.span * g.head_dim <= usize::MAX,
        0 <= pos,
        pos + n <= g.span,
    ensures
        after_each_dense(d, mem, dtype, g, pos, n) == rows_put(
            d,
            mem,
            dtype,
            Buf::PlaneK,
            Buf::PlaneV,
            g,
            pos,
            0,
            n as int,
            g.heads * g.head_dim,
        ),
    decreases n,
{
    let width = g.heads * g.head_dim;
    if n == 0 {
        lemma_no_rows(d, mem, dtype, Buf::PlaneK, Buf::PlaneV, g, pos, 0, width);
    } else {
        let k = n - 1;
        lemma_dense_rows(d, mem, dtype, g, pos, k as nat);
        let less = after_each_dense(d, mem, dtype, g, pos, k as nat);
        lemma_row_by_head(
            d,
            less,
            dtype,
            Buf::PlaneK,
            Buf::PlaneV,
            g,
            pos + k,
            g.heads as nat,
            k * width,
            width,
        );
        assert(Grid { heads: g.heads as nat as int, ..g } == g);
        lemma_rows_one_by_one(
            d,
            mem,
            dtype,
            Buf::PlaneK,
            Buf::PlaneV,
            g,
            pos,
            0,
            n as int,
            width,
        );
    }
}

/// The sink's or the window's layout.
spec fn grid_of(m: PlaneModel, span: int) -> Grid {
    Grid { heads: m.n_kv_heads, span, head_dim: m.head_dim }
}

/// What one write of a mixed cache leaves.
spec fn after_write<T>(d: DeviceModel<T>, mem: Memory<T>, m: PlaneModel, w: CacheWrite) -> Memory<
    T,
> {
    let width = m.n_kv_heads * m.head_dim;
    match w {
        CacheWrite::Sink { pos, row } => rows_put(
            d,
            mem,
            KvDtype::F16,
            Buf::SinkK,
            Buf::SinkV,
            grid_of(m, m.layout.sink_len),
            pos,
            row * width,
            1,
            width,
        ),
        CacheWrite::Window { slot, row } => rows_put(
            d,
            mem,
            KvDtype::F16,
            Buf::WindowK,
            Buf::WindowV,
            grid_of(m, m.layout.window_len),
            slot,
            row * width,
            1,
            width,
        ),
        CacheWrite::Evict { block } => after_ops(d, mem, evict_ops(m, block as u32), 0),
    }
}

/// What a run of writes leaves.
spec fn after_writes<T>(
    d: DeviceModel<T>,
    mem: Memory<T>,
    m: PlaneModel,
    ws: Seq<CacheWrite>,
) -> Memory<T>
    decreases ws.len(),
{
    if ws.len() == 0 {
        mem
    } else {
        after_write(d, after_writes(d, mem, m, ws.drop_last()), m, ws.last())
    }
}

proof fn lemma_writes_in_turn<T>(
    d: DeviceModel<T>,
    mem: Memory<T>,
    m: PlaneModel,
    a: Seq<CacheWrite>,
    b: Seq<CacheWrite>,
)
    ensures
        after_writes(d, mem, m, a + b) == after_writes(d, after_writes(d, mem, m, a), m, b),
    decreases b.len(),
{
    if b.len() == 0 {
        assert(a + b =~= a);
    } else {
        lemma_writes_in_turn(d, mem, m, a, b.drop_last());
        assert((a + b).drop_last() =~= a + b.drop_last());
    }
}

/// Where the window is changes nothing about what a write leaves.
proof fn lemma_writes_wherever_the_window_is<T>(
    d: DeviceModel<T>,
    mem: Memory<T>,
    m: PlaneModel,
    other: PlaneModel,
    ws: Seq<CacheWrite>,
)
    requires
        m.with_layout(other.layout) == other,
        m.layout.sink_len == other.layout.sink_len,
        m.layout.window_len == other.layout.window_len,
    ensures
        after_writes(d, mem, m, ws) == after_writes(d, mem, other, ws),
    decreases ws.len(),
{
    if ws.len() > 0 {
        lemma_writes_wherever_the_window_is(d, mem, m, other, ws.drop_last());
        assert forall|b: u32| #[trigger] evict_ops(m, b) == evict_ops(other, b) by {}
        let w = ws.last();
        assert(grid_of(m, m.layout.sink_len) == grid_of(other, other.layout.sink_len));
        assert(grid_of(m, m.layout.window_len) == grid_of(other, other.layout.window_len));
    }
}

/// An eviction reads none of the appended rows.
proof fn lemma_evict_anywhere<T>(
    d: DeviceModel<T>,
    mem: Memory<T>,
    m: PlaneModel,
    block: u32,
    base: int,
)
    ensures
        after_ops(d, mem, evict_ops(m, block), base) == after_ops(d, mem, evict_ops(m, block), 0),
{
    let ops = evict_ops(m, block);
    reveal_with_fuel(after_ops, 4);
    assert(ops.len() == 2 || ops.len() == 3);
}

/// One appended position leaves what its writes leave.
proof fn lemma_append_writes<T>(
    d: DeviceModel<T>,
    mem: Memory<T>,
    m: PlaneModel,
    pos: int,
    row: int,
)
    requires
        m.valid(),
        m.layout.is_next(pos),
        pos <= u32::MAX,
    ensures
        after_ops(d, mem, append_ops(m, pos), row * (m.n_kv_heads * m.head_dim)) == after_writes(
            d,
            mem,
            m,
            append_writes(m.layout, pos, row),
        ),
{
    let l = m.layout;
    let width = m.n_kv_heads * m.head_dim;
    let base = row * width;
    let ws = append_writes(l, pos, row);
    super::mixed::lemma_lens_fit(m, 1);
    assert(l.window_len <= u32::MAX);
    reveal_with_fuel(after_writes, 3);
    if pos < l.sink_len {
        let g = grid_of(m, l.sink_len);
        lemma_row_by_head(
            d,
            mem,
            KvDtype::F16,
            Buf::SinkK,
            Buf::SinkV,
            g,
            pos,
            g.heads as nat,
            base,
            width,
        );
        assert(Grid { heads: g.heads as nat as int, ..g } == g);
        assert(ws.drop_last() =~= Seq::empty());
    } else {
        let slot = pos - appended(l, pos).window_base;
        let evict = if pos == l.window_end() {
            evict_ops(m, l.blocks() as u32)
        } else {
            Seq::empty()
        };
        let g = grid_of(m, l.window_len);
        let rows = row_ops(
            KvDtype::F16,
            Buf::WindowK,
            Buf::WindowV,
            l.window_len as u32,
            slot as u32,
            m.n_kv_heads as nat,
            m.head_dim as u32,
        );
        assert(append_ops(m, pos) == evict + rows);
        lemma_ops_in_turn(d, mem, evict, rows, base);
        lemma_evict_anywhere(d, mem, m, l.blocks() as u32, base);
        lemma_row_by_head(
            d,
            after_ops(d, mem, evict, base),
            KvDtype::F16,
            Buf::WindowK,
            Buf::WindowV,
            g,
            slot,
            g.heads as nat,
            base,
            width,
        );
        assert(Grid { heads: g.heads as nat as int, ..g } == g);
        if pos == l.window_end() {
            assert(ws.drop_last() =~= seq![CacheWrite::Evict { block: l.blocks() }]);
            assert(ws.drop_last().drop_last() =~= Seq::empty());
            assert(ws.last() == CacheWrite::Window { slot, row });
        } else {
            assert(ws.drop_last() =~= Seq::empty());
        }
    }
}

/// Positions appended one at a time leave what their writes leave.
proof fn lemma_append_each_writes<T>(
    d: DeviceModel<T>,
    mem: Memory<T>,
    m: PlaneModel,
    pos: int,
    row: int,
    n: nat,
)
    requires
        m.valid(),
        m.layout.is_next(pos),
        pos + n <= u32::MAX,
        pos + n <= m.layout.sink_len + m.bulk_cap,
    ensures
        after_each(d, mem, m, pos, row, n) == after_writes(
            d,
            mem,
            m,
            append_each_writes(m.layout, pos, row, n),
        ),
    decreases n,
{
    if n > 0 {
        let l = m.layout;
        let next = m.with_layout(appended(l, pos));
        super::mixed::lemma_appended_each_blocks(m, pos, 1);
        reveal_with_fuel(super::layout::appended_each, 2);
        lemma_appended_next(l, pos);
        lemma_append_writes(d, mem, m, pos, row);
        let first = append_writes(l, pos, row);
        let rest = append_each_writes(next.layout, pos + 1, row + 1, (n - 1) as nat);
        let mid = after_writes(d, mem, m, first);
        lemma_append_each_writes(d, mid, next, pos + 1, row + 1, (n - 1) as nat);
        lemma_writes_wherever_the_window_is(d, mid, m, next, rest);
        lemma_writes_in_turn(d, mem, m, first, rest);
    }
}

/// A scatter leaves what the writes of its rows leave.
proof fn lemma_scatter_writes<T>(
    d: DeviceModel<T>,
    mem: Memory<T>,
    m: PlaneModel,
    sink: bool,
    slot: int,
    row: int,
    n: nat,
)
    requires
        m.valid(),
        0 <= row,
    ensures
        ({
            let width = m.n_kv_heads * m.head_dim;
            let ws = if sink {
                Seq::new(n, |i: int| CacheWrite::Sink { pos: slot + i, row: row + i })
            } else {
                window_writes(slot, row, n)
            };
            after_writes(d, mem, m, ws) == rows_put(
                d,
                mem,
                KvDtype::F16,
                if sink {
                    Buf::SinkK
                } else {
                    Buf::WindowK
                },
                if sink {
                    Buf::SinkV
                } else {
                    Buf::WindowV
                },
                grid_of(
                    m,
                    if sink {
                        m.layout.sink_len
                    } else {
                        m.layout.window_len
                    },
                ),
                slot,
                row * width,
                n as int,
                width,
            )
        }),
    decreases n,
{
    let width = m.n_kv_heads * m.head_dim;
    let ws = if sink {
        Seq::new(n, |i: int| CacheWrite::Sink { pos: slot + i, row: row + i })
    } else {
        window_writes(slot, row, n)
    };
    let k_dst = if sink {
        Buf::SinkK
    } else {
        Buf::WindowK
    };
    let v_dst = if sink {
        Buf::SinkV
    } else {
        Buf::WindowV
    };
    let g = grid_of(
        m,
        if sink {
            m.layout.sink_len
        } else {
            m.layout.window_len
        },
    );
    if n == 0 {
        lemma_no_rows(d, mem, KvDtype::F16, k_dst, v_dst, g, slot, row * width, width);
    } else {
        let less = (n - 1) as nat;
        lemma_scatter_writes(d, mem, m, sink, slot, row, less);
        if sink {
            assert(ws.drop_last() =~= Seq::new(
                less,
                |i: int| CacheWrite::Sink { pos: slot + i, row: row + i },
            ));
        } else {
            assert(ws.drop_last() =~= window_writes(slot, row, less));
        }
        lemma_rows_one_by_one(
            d,
            mem,
            KvDtype::F16,
            k_dst,
            v_dst,
            g,
            slot,
            row * width,
            n as int,
            width,
        );
        assert((row + n - 1) * width == row * width + (n - 1) * width) by (nonlinear_arith);
    }
}

/// One segment leaves what its writes leave.
proof fn lemma_segment_writes<T>(
    d: DeviceModel<T>,
    mem: Memory<T>,
    m: PlaneModel,
    s: ChunkSegment,
)
    requires
        m.valid(),
        s.chunk_row_start * (m.n_kv_heads * m.head_dim) <= u32::MAX,
    ensures
        after_ops(d, mem, segment_ops(m, s), 0) == after_writes(d, mem, m, segment_writes(s)),
{
    let slot = s.window_slot_start as int;
    let row = s.chunk_row_start as int;
    let run = window_writes(slot, row, s.len as nat);
    let width = m.n_kv_heads * m.head_dim;
    let scatter = if s.len > 0 {
        seq![
            scatter_op(
                m,
                Buf::WindowK,
                Buf::WindowV,
                m.layout.window_len,
                row,
                s.len,
                s.window_slot_start,
            ),
        ]
    } else {
        Seq::empty()
    };
    let evict = match s.evict_after {
        None => Seq::empty(),
        Some(block) => evict_ops(m, block),
    };
    let gone = match s.evict_after {
        None => Seq::empty(),
        Some(block) => seq![CacheWrite::Evict { block: block as int }],
    };
    assert(0 <= row * width) by (nonlinear_arith)
        requires
            0 <= row,
            0 <= m.n_kv_heads,
            0 <= m.head_dim,
            width == m.n_kv_heads * m.head_dim,
    ;
    lemma_ops_in_turn(d, mem, scatter, evict, 0);
    lemma_writes_in_turn(d, mem, m, run, gone);
    lemma_scatter_writes(d, mem, m, false, slot, row, s.len as nat);
    reveal_with_fuel(after_ops, 2);
    if s.len > 0 {
        assert(scatter.drop_last() =~= Seq::empty());
    } else {
        lemma_no_rows(
            d,
            mem,
            KvDtype::F16,
            Buf::WindowK,
            Buf::WindowV,
            grid_of(m, m.layout.window_len),
            slot,
            row * width,
            width,
        );
    }
    let mid = after_writes(d, mem, m, run);
    assert(after_ops(d, mem, scatter, 0) == mid);
    assert(after_ops(d, mid, evict, 0) == after_writes(d, mid, m, gone)) by {
        reveal_with_fuel(after_writes, 2);
        if s.evict_after is Some {
            assert(gone.drop_last() =~= Seq::empty());
        }
    }
}

/// Segments write in turn, counted from the last.
proof fn lemma_last_segment(s: Seq<ChunkSegment>)
    requires
        s.len() > 0,
    ensures
        segments_writes(s) == segments_writes(s.drop_last()) + segment_writes(s.last()),
    decreases s.len(),
{
    if s.len() == 1 {
        reveal_with_fuel(segments_writes, 2);
        assert(s.drop_first() =~= Seq::empty());
        assert(s.drop_last() =~= Seq::empty());
        assert(segments_writes(s) =~= segment_writes(s.last()));
        assert(Seq::<CacheWrite>::empty() + segment_writes(s.last()) =~= segment_writes(s.last()));
    } else {
        let rest = s.drop_first();
        lemma_last_segment(rest);
        assert(rest.last() == s.last());
        assert(rest.drop_last() =~= s.drop_last().drop_first());
        assert(segment_writes(s[0]) + (segments_writes(rest.drop_last()) + segment_writes(s.last()))
            =~= (segment_writes(s[0]) + segments_writes(rest.drop_last())) + segment_writes(
            s.last(),
        ));
    }
}

/// A run of segments leaves what its writes leave.
proof fn lemma_segments_writes<T>(
    d: DeviceModel<T>,
    mem: Memory<T>,
    m: PlaneModel,
    s: Seq<ChunkSegment>,
)
    requires
        m.valid(),
        forall|k: int|
            0 <= k < s.len() ==> (#[trigger] s[k]).chunk_row_start * (m.n_kv_heads * m.head_dim)
                <= u32::MAX,
    ensures
        after_ops(d, mem, segments_ops(m, s), 0) == after_writes(d, mem, m, segments_writes(s)),
    decreases s.len(),
{
    if s.len() > 0 {
        let less = s.drop_last();
        assert forall|k: int| 0 <= k < less.len() implies (#[trigger] less[k]).chunk_row_start * (
        m.n_kv_heads * m.head_dim) <= u32::MAX by {
            assert(less[k] == s[k]);
        }
        assert(s.last() == s[s.len() - 1]);
        lemma_segments_writes(d, mem, m, less);
        lemma_last_segment(s);
        lemma_ops_in_turn(d, mem, segments_ops(m, less), segment_ops(m, s.last()), 0);
        lemma_writes_in_turn(d, mem, m, segments_writes(less), segment_writes(s.last()));
        lemma_segment_writes(d, after_ops(d, mem, segments_ops(m, less), 0), m, s.last());
    }
}

/// Appending a chunk to a mixed cache leaves in the layer's buffers what
/// appending its rows one at a time leaves, whatever an eviction does to
/// them; a chunk without rows runs nothing.
pub proof fn law_chunk_leaves_what_its_rows_leave<T>(
    d: DeviceModel<T>,
    mem: Memory<T>,
    m: PlaneModel,
    pos: int,
    n: int,
)
    requires
        m.valid(),
        m.layout.is_next(pos),
        0 <= n,
        pos + n <= u32::MAX,
        pos + n <= m.layout.sink_len + m.bulk_cap,
        n * (m.n_kv_heads * m.head_dim) <= u32::MAX,
    ensures
        after_ops(d, mem, append_chunk_ops(m, pos, n), 0) == after_each(d, mem, m, pos, 0, n as nat),
        n == 0 ==> append_chunk_ops(m, pos, n) == Seq::<Op>::empty(),
{
    let l = m.layout;
    let width = m.n_kv_heads * m.head_dim;
    let sink = sink_rows(l, pos, n);
    let segs = segments(l, pos + sink, sink, n - sink);
    let first = if sink > 0 {
        seq![
            scatter_op(m, Buf::SinkK, Buf::SinkV, l.sink_len, 0, sink as u32, pos as u32),
        ]
    } else {
        Seq::empty()
    };
    law_chunk_append_is_serial_append(l, pos, n);
    lemma_append_each_writes(d, mem, m, pos, 0, n as nat);
    assert(append_chunk_ops(m, pos, n) == first + segments_ops(m, segs));
    lemma_ops_in_turn(d, mem, first, segments_ops(m, segs), 0);
    lemma_writes_in_turn(d, mem, m, sink_writes(pos, sink as nat), segments_writes(segs));
    assert(sink_writes(pos, sink as nat) =~= Seq::new(
        sink as nat,
        |i: int| CacheWrite::Sink { pos: pos + i, row: 0 + i },
    ));
    lemma_scatter_writes(d, mem, m, true, pos, 0, sink as nat);
    assert(0 * width == 0) by (nonlinear_arith);
    reveal_with_fuel(after_ops, 2);
    if sink > 0 {
        assert(first.drop_last() =~= Seq::empty());
    } else {
        lemma_no_rows(
            d,
            mem,
            KvDtype::F16,
            Buf::SinkK,
            Buf::SinkV,
            grid_of(m, l.sink_len),
            pos,
            0,
            width,
        );
    }
    super::mixed::lemma_segment_rows(l, pos + sink, sink, n - sink);
    assert forall|k: int| 0 <= k < segs.len() implies (#[trigger] segs[k]).chunk_row_start * width
        <= u32::MAX by {
        assert(segs[k].chunk_row_start * width <= n * width) by (nonlinear_arith)
            requires
                segs[k].chunk_row_start <= n,
                0 <= m.n_kv_heads,
                0 <= m.head_dim,
                width == m.n_kv_heads * m.head_dim,
        ;
    }
    lemma_segments_writes(d, after_ops(d, mem, first, 0), m, segs);
    if n == 0 {
        assert(segs =~= Seq::empty());
        assert(append_chunk_ops(m, pos, n) =~= Seq::empty());
    }
}

} // verus!
