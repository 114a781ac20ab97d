//! One full-attention layer's mixed key/value storage: a half-precision sink
//! and recent window, and a bulk region that holds evicted windows in
//! quantized blocks.

use super::copies::{head_copies, head_prefix_copies, RangeCopy};
use super::layout::{
    append_each_writes, append_writes, appended, appended_each, segments, sink_rows, CacheWrite,
    ChunkSegment, LayoutModel, MixedLayout,
};
use super::rows::{push_rows, row_ops};
use crate::error::{ConfigError, PlaneField};
use crate::load_opts::KvDtype;
use crate::math::{ceil_div, div_ceil, lemma_ceil_div};
use crate::qwen35::forward::plan::{start, At, Buf, MixedPtrs, Op};
use crate::snapshot::types::{AttnLayerBytes, AttnModel};
use vstd::prelude::*;

verus! {

/// How evicted windows are distorted in a quality simulation.
#[derive(Debug, Clone, Copy, PartialEq, Eq, Structural)]
pub struct RotSimSpec {
    /// Bits per weight of the simulated quantization.
    pub bpw: u8,
    /// Keys too, not only values.
    pub apply_to_k: bool,
}

/// The storage's shape and bookkeeping; the elements are on the device.
#[derive(Debug, Clone, Copy, PartialEq, Eq, Structural)]
pub struct MixedAttnPlane {
    layout: MixedLayout,
    v_bits: u8,
    n_kv_heads: u32,
    head_dim: u32,
    bulk_cap: u32,
    num_blocks_total: u32,
    rot_sim: Option<RotSimSpec>,
}

/// What a [`MixedAttnPlane`] knows.
#[verifier::ext_equal]
pub struct PlaneModel {
    pub layout: LayoutModel,
    pub v_bits: u8,
    pub n_kv_heads: int,
    pub head_dim: int,
    pub bulk_cap: int,
    pub num_blocks_total: int,
    pub rot_sim: Option<RotSimSpec>,
}

/// Blocks that hold every position past the sink, at least one.
pub open spec fn blocks_for(max_seq: int, sink_len: int, window_len: int) -> int {
    let positions = if max_seq <= sink_len {
        0
    } else {
        max_seq - sink_len
    };
    let n = ceil_div(positions, window_len);
    if n >= 1 {
        n
    } else {
        1
    }
}

/// The sizes of a mixed plane can be addressed.
pub open spec fn mixed_fits(
    n_kv_heads: u32,
    head_dim: u32,
    max_seq: u32,
    sink_len: u32,
    window_len: u32,
) -> bool {
    let cap = blocks_for(max_seq as int, sink_len as int, window_len as int) * window_len;
    &&& window_len >= 1
    &&& cap <= u32::MAX
    &&& n_kv_heads * sink_len <= u32::MAX
    &&& n_kv_heads * sink_len * head_dim <= u32::MAX
    &&& n_kv_heads * cap <= u32::MAX
    &&& n_kv_heads * cap * head_dim <= u32::MAX
}

/// A plane for `max_seq` positions with nothing in it.
pub open spec fn empty_plane(
    n_kv_heads: u32,
    head_dim: u32,
    max_seq: u32,
    v_bits: u8,
    sink_len: u32,
    window_len: u32,
    rot_sim: Option<RotSimSpec>,
) -> PlaneModel {
    let blocks = blocks_for(max_seq as int, sink_len as int, window_len as int);
    PlaneModel {
        layout: LayoutModel {
            sink_len: sink_len as int,
            window_len: window_len as int,
            window_base: sink_len as int,
        },
        v_bits,
        n_kv_heads: n_kv_heads as int,
        head_dim: head_dim as int,
        bulk_cap: blocks * window_len,
        num_blocks_total: blocks,
        rot_sim,
    }
}

/// Element counts of a mixed cache's buffers.
#[derive(Debug, Clone, Copy, PartialEq, Eq, Structural)]
pub struct MixedLens {
    pub sink: usize,
    pub window: usize,
    pub bulk_k_codes: usize,
    pub bulk_k_scales: usize,
    pub bulk_v_codes: usize,
    pub bulk_v_scales: usize,
}

impl PlaneModel {
    /// The buffers can be addressed, and the window starts inside the bulk
    /// region's reach.
    pub open spec fn valid(self) -> bool {
        &&& self.layout.valid()
        &&& self.layout.sink_len <= u32::MAX
        &&& self.layout.window_len <= u32::MAX
        &&& 0 <= self.n_kv_heads <= u32::MAX
        &&& 0 <= self.head_dim <= u32::MAX
        &&& 1 <= self.num_blocks_total
        &&& self.bulk_cap == self.num_blocks_total * self.layout.window_len
        &&& self.bulk_cap <= u32::MAX
        &&& self.n_kv_heads * self.layout.sink_len <= u32::MAX
        &&& self.n_kv_heads * self.layout.sink_len * self.head_dim <= u32::MAX
        &&& self.n_kv_heads * self.bulk_cap * self.head_dim <= u32::MAX
        &&& self.n_kv_heads * self.bulk_cap <= u32::MAX
        &&& self.layout.blocks() <= self.num_blocks_total
    }

    /// Stored bytes per position and head of the values.
    pub open spec fn v_row(self) -> int {
        if self.v_bits == 8 {
            self.head_dim
        } else {
            self.head_dim / 2
        }
    }

    /// Element counts with `blocks` blocks in the bulk region.
    pub open spec fn lens(self, blocks: int) -> MixedLens {
        let rows = blocks * self.layout.window_len;
        MixedLens {
            sink: (self.n_kv_heads * self.layout.sink_len * self.head_dim) as usize,
            window: (self.n_kv_heads * self.layout.window_len * self.head_dim) as usize,
            bulk_k_codes: (self.n_kv_heads * rows * self.head_dim) as usize,
            bulk_k_scales: (self.n_kv_heads * blocks * self.head_dim) as usize,
            bulk_v_codes: (self.n_kv_heads * rows * self.v_row()) as usize,
            bulk_v_scales: (self.n_kv_heads * rows) as usize,
        }
    }

    /// With the window at another place.
    pub open spec fn with_layout(self, layout: LayoutModel) -> PlaneModel {
        PlaneModel { layout, ..self }
    }
}

impl View for MixedAttnPlane {
    type V = PlaneModel;

    closed spec fn view(&self) -> PlaneModel {
        PlaneModel {
            layout: self.layout@,
            v_bits: self.v_bits,
            n_kv_heads: self.n_kv_heads as int,
            head_dim: self.head_dim as int,
            bulk_cap: self.bulk_cap as int,
            num_blocks_total: self.num_blocks_total as int,
            rot_sim: self.rot_sim,
        }
    }
}

/// What evicting the window into a block runs.
pub open spec fn evict_ops(m: PlaneModel, block: u32) -> Seq<Op> {
    (match m.rot_sim {
        None => Seq::empty(),
        Some(r) => seq![
            Op::RotSim {
                bpw: r.bpw,
                apply_to_k: r.apply_to_k,
                n_kv_heads: m.n_kv_heads as u32,
                window_len: m.layout.window_len as u32,
                head_dim: m.head_dim as u32,
            },
        ],
    }) + seq![
        Op::QuantizeEvictK {
            n_kv_heads: m.n_kv_heads as u32,
            window_len: m.layout.window_len as u32,
            head_dim: m.head_dim as u32,
            bulk_cap: m.bulk_cap as u32,
            num_blocks_total: m.num_blocks_total as u32,
            block,
        },
        Op::QuantizeEvictV {
            v_bits: m.v_bits,
            n_kv_heads: m.n_kv_heads as u32,
            window_len: m.layout.window_len as u32,
            head_dim: m.head_dim as u32,
            bulk_cap: m.bulk_cap as u32,
            block,
        },
    ]
}

/// What appending one position runs.
pub open spec fn append_ops(m: PlaneModel, pos: int) -> Seq<Op> {
    let heads = m.n_kv_heads as nat;
    let hd = m.head_dim as u32;
    let l = m.layout;
    if pos < l.sink_len {
        row_ops(KvDtype::F16, Buf::SinkK, Buf::SinkV, l.sink_len as u32, pos as u32, heads, hd)
    } else {
        (if pos == l.window_end() {
            evict_ops(m, l.blocks() as u32)
        } else {
            Seq::empty()
        }) + row_ops(
            KvDtype::F16,
            Buf::WindowK,
            Buf::WindowV,
            l.window_len as u32,
            (pos - appended(l, pos).window_base) as u32,
            heads,
            hd,
        )
    }
}

/// Scatters `rows` rows of a chunk, from `from` on, into consecutive slots.
pub open spec fn scatter_op(
    m: PlaneModel,
    k_dst: Buf,
    v_dst: Buf,
    span: int,
    from: int,
    rows: u32,
    slot: u32,
) -> Op {
    let offset = (from * (m.n_kv_heads * m.head_dim)) as usize;
    Op::ScatterKv {
        dtype: KvDtype::F16,
        k_src: At { buf: Buf::AttnK, offset },
        v_src: At { buf: Buf::AttnV, offset },
        k_dst,
        v_dst,
        n_kv_heads: m.n_kv_heads as u32,
        head_dim: m.head_dim as u32,
        max_seq: span as u32,
        rows,
        pos_base: slot,
    }
}

/// What one segment of a chunk runs.
pub open spec fn segment_ops(m: PlaneModel, s: ChunkSegment) -> Seq<Op> {
    (if s.len > 0 {
        seq![
            scatter_op(
                m,
                Buf::WindowK,
                Buf::WindowV,
                m.layout.window_len,
                s.chunk_row_start as int,
                s.len,
                s.window_slot_start,
            ),
        ]
    } else {
        Seq::empty()
    }) + (match s.evict_after {
        None => Seq::empty(),
        Some(block) => evict_ops(m, block),
    })
}

/// What a run of segments runs.
pub open spec fn segments_ops(m: PlaneModel, s: Seq<ChunkSegment>) -> Seq<Op>
    decreases s.len(),
{
    if s.len() == 0 {
        Seq::empty()
    } else {
        segments_ops(m, s.drop_last()) + segment_ops(m, s.last())
    }
}

/// What appending a chunk runs.
pub open spec fn append_chunk_ops(m: PlaneModel, pos: int, n: int) -> Seq<Op> {
    let sink = sink_rows(m.layout, pos, n);
    (if sink > 0 {
        seq![
            scatter_op(
                m,
                Buf::SinkK,
                Buf::SinkV,
                m.layout.sink_len,
                0,
                sink as u32,
                pos as u32,
            ),
        ]
    } else {
        Seq::empty()
    }) + segments_ops(m, segments(m.layout, pos + sink, sink, n - sink))
}

/// The per-head copies of a mixed layer's bulk region.
#[derive(Debug)]
pub struct BulkCopies {
    pub k_codes: Vec<RangeCopy>,
    pub k_scales: Vec<RangeCopy>,
    pub v_codes: Vec<RangeCopy>,
    pub v_scales: Vec<RangeCopy>,
}

/// What capturing or restoring a mixed layer moves: sink and window whole,
/// the filled blocks of every head.
#[derive(Debug)]
pub struct MixedTransfer {
    pub lens: MixedLens,
    pub bulk: BulkCopies,
    pub window_base: u32,
    pub v_bits: u8,
}

/// Whether a transfer moves the state of a plane with its window where the
/// model says.
pub open spec fn transfers(m: PlaneModel, t: MixedTransfer) -> bool {
    let blocks = m.layout.blocks();
    let rows = blocks * m.layout.window_len;
    let heads = m.n_kv_heads as nat;
    &&& t.lens == m.lens(blocks)
    &&& t.window_base == m.layout.window_base
    &&& t.v_bits == m.v_bits
    &&& t.bulk.k_codes@ == head_copies(
        heads,
        (m.bulk_cap * m.head_dim) as nat,
        (rows * m.head_dim) as nat,
    )
    &&& t.bulk.k_scales@ == head_copies(
        heads,
        (m.num_blocks_total * m.head_dim) as nat,
        (blocks * m.head_dim) as nat,
    )
    &&& t.bulk.v_codes@ == head_copies(
        heads,
        (m.bulk_cap * m.v_row()) as nat,
        (rows * m.v_row()) as nat,
    )
    &&& t.bulk.v_scales@ == head_copies(heads, m.bulk_cap as nat, rows as nat)
}

/// The layout a captured layer asks for.
pub open spec fn layout_at(m: PlaneModel, window_base: u32) -> LayoutModel {
    LayoutModel { window_base: window_base as int, ..m.layout }
}

/// A window of this plane may start there.
pub open spec fn window_may_start(m: PlaneModel, window_base: u32) -> bool {
    let l = layout_at(m, window_base);
    l.valid() && l.blocks() <= m.num_blocks_total
}

/// A part has another length than expected.
pub open spec fn len_error(field: PlaneField, found: nat, expected: usize) -> Option<ConfigError> {
    if found != expected {
        Some(ConfigError::PlaneLen { field, found: found as usize, expected })
    } else {
        None
    }
}

/// What keeps a captured layer from being restored, if anything; the first
/// check that fails decides.
pub open spec fn restore_error(m: PlaneModel, a: AttnModel) -> Option<ConfigError> {
    match a {
        AttnModel::Mixed {
            sink_k,
            sink_v,
            window_k,
            window_v,
            bulk_k_codes,
            bulk_k_scales,
            bulk_v_codes,
            bulk_v_scales,
            window_base,
            v_bits,
        } => {
            let l = m.lens(0);
            let f = m.lens(layout_at(m, window_base).blocks());
            if v_bits != m.v_bits {
                Some(ConfigError::VBitsMismatch { found: v_bits, expected: m.v_bits })
            } else if sink_k.len() != l.sink {
                len_error(PlaneField::SinkK, sink_k.len(), l.sink)
            } else if sink_v.len() != l.sink {
                len_error(PlaneField::SinkV, sink_v.len(), l.sink)
            } else if window_k.len() != l.window {
                len_error(PlaneField::WindowK, window_k.len(), l.window)
            } else if window_v.len() != l.window {
                len_error(PlaneField::WindowV, window_v.len(), l.window)
            } else if !window_may_start(m, window_base) {
                Some(
                    ConfigError::WindowBase {
                        window_base,
                        sink_len: m.layout.sink_len as u32,
                        window_len: m.layout.window_len as u32,
                    },
                )
            } else if bulk_k_codes.len() != f.bulk_k_codes {
                len_error(PlaneField::BulkKCodes, bulk_k_codes.len(), f.bulk_k_codes)
            } else if bulk_k_scales.len() != f.bulk_k_scales {
                len_error(PlaneField::BulkKScales, bulk_k_scales.len(), f.bulk_k_scales)
            } else if bulk_v_codes.len() != f.bulk_v_codes {
                len_error(PlaneField::BulkVCodes, bulk_v_codes.len(), f.bulk_v_codes)
            } else {
                len_error(PlaneField::BulkVScales, bulk_v_scales.len(), f.bulk_v_scales)
            }
        },
        _ => Some(ConfigError::PlaneNotMixed),
    }
}

/// Whether a captured layer has the lengths a capture gives it.
pub open spec fn captured_shape(m: PlaneModel, a: AttnModel) -> bool {
    match a {
        AttnModel::Mixed {
            sink_k,
            sink_v,
            window_k,
            window_v,
            bulk_k_codes,
            bulk_k_scales,
            bulk_v_codes,
            bulk_v_scales,
            window_base,
            v_bits,
        } => {
            let f = m.lens(m.layout.blocks());
            &&& sink_k.len() == f.sink
            &&& sink_v.len() == f.sink
            &&& window_k.len() == f.window
            &&& window_v.len() == f.window
            &&& bulk_k_codes.len() == f.bulk_k_codes
            &&& bulk_k_scales.len() == f.bulk_k_scales
            &&& bulk_v_codes.len() == f.bulk_v_codes
            &&& bulk_v_scales.len() == f.bulk_v_scales
            &&& window_base == m.layout.window_base
            &&& v_bits == m.v_bits
        },
        _ => false,
    }
}

/// What a plane captures, any plane of the same shape accepts, wherever its
/// own window is, and then has its window where the captured plane had it.
pub proof fn law_captured_state_is_accepted(m: PlaneModel, other: PlaneModel, a: AttnModel)
    requires
        m.valid(),
        other.valid(),
        m.with_layout(other.layout) == other,
        m.layout.sink_len == other.layout.sink_len,
        m.layout.window_len == other.layout.window_len,
        captured_shape(m, a),
    ensures
        restore_error(other, a) is None,
        layout_at(other, a->window_base) == m.layout,
{
    assert(layout_at(other, a->window_base) =~= m.layout);
}

/// Every count and every stride of a plane fits a machine word.
pub proof fn lemma_lens_fit(m: PlaneModel, blocks: int)
    requires
        m.valid(),
        0 <= blocks <= m.num_blocks_total,
    ensures
        ({
            let rows = blocks * m.layout.window_len;
            &&& 0 <= rows <= m.bulk_cap
            &&& 0 <= m.n_kv_heads * m.layout.sink_len
            &&& 0 <= m.n_kv_heads * m.layout.sink_len * m.head_dim
            &&& 0 <= m.n_kv_heads * m.layout.window_len <= m.n_kv_heads * m.bulk_cap
            &&& 0 <= m.n_kv_heads * m.layout.window_len * m.head_dim <= m.n_kv_heads * m.bulk_cap
                * m.head_dim
            &&& 0 <= m.n_kv_heads * rows <= m.n_kv_heads * m.bulk_cap
            &&& 0 <= m.n_kv_heads * rows * m.head_dim <= m.n_kv_heads * m.bulk_cap * m.head_dim
            &&& 0 <= m.n_kv_heads * blocks <= m.n_kv_heads * m.bulk_cap
            &&& 0 <= m.n_kv_heads * blocks * m.head_dim <= m.n_kv_heads * m.bulk_cap * m.head_dim
            &&& 0 <= m.v_row() <= m.head_dim
            &&& 0 <= m.n_kv_heads * rows * m.v_row() <= m.n_kv_heads * m.bulk_cap * m.head_dim
        }),
{
    let n = m.n_kv_heads;
    let w = m.layout.window_len;
    let hd = m.head_dim;
    let cap = m.bulk_cap;
    let rows = blocks * w;
    assert(0 <= rows <= cap) by (nonlinear_arith)
        requires
            0 <= blocks <= m.num_blocks_total,
            1 <= w,
            rows == blocks * w,
            cap == m.num_blocks_total * w,
    ;
    assert(blocks <= cap && w <= cap) by (nonlinear_arith)
        requires
            0 <= blocks <= m.num_blocks_total,
            1 <= m.num_blocks_total,
            1 <= w,
            cap == m.num_blocks_total * w,
    ;
    lemma_scale(n, m.layout.sink_len, m.layout.sink_len, hd);
    lemma_scale(n, w, cap, hd);
    lemma_scale(n, rows, cap, hd);
    lemma_scale(n, blocks, cap, hd);
    assert(0 <= n * rows * m.v_row() <= n * rows * hd) by (nonlinear_arith)
        requires
            0 <= n * rows,
            0 <= m.v_row() <= hd,
    ;
}

/// The window never leaves the bulk region's reach.
proof fn lemma_appended_blocks(m: PlaneModel, pos: int)
    requires
        m.valid(),
        m.layout.is_next(pos),
        pos <= m.layout.sink_len + m.bulk_cap,
    ensures
        m.with_layout(appended(m.layout, pos)).valid(),
{
    let l = m.layout;
    if pos >= l.sink_len && pos == l.window_end() {
        super::layout::lemma_slid_valid(l);
        let b = l.blocks();
        vstd::arithmetic::div_mod::lemma_fundamental_div_mod(
            l.window_base - l.sink_len,
            l.window_len,
        );
        assert(b + 1 <= m.num_blocks_total) by (nonlinear_arith)
            requires
                l.window_len * b + l.window_len <= m.num_blocks_total * l.window_len,
                1 <= l.window_len,
        ;
    }
}

/// The window never leaves the bulk region's reach while a chunk is appended.
pub proof fn lemma_appended_each_blocks(m: PlaneModel, pos: int, n: nat)
    requires
        m.valid(),
        m.layout.is_next(pos),
        n > 0 ==> pos + n - 1 <= m.layout.sink_len + m.bulk_cap,
    ensures
        m.with_layout(appended_each(m.layout, pos, n)).valid(),
        appended_each(m.layout, pos, n).sink_len == m.layout.sink_len,
        appended_each(m.layout, pos, n).window_len == m.layout.window_len,
    decreases n,
{
    if n > 0 {
        lemma_appended_blocks(m, pos);
        let next = m.with_layout(appended(m.layout, pos));
        lemma_appended_each_blocks(next, pos + 1, (n - 1) as nat);
        assert(next.with_layout(appended_each(next.layout, pos + 1, (n - 1) as nat))
            =~= m.with_layout(appended_each(m.layout, pos, n)));
    } else {
        assert(m.with_layout(m.layout) =~= m);
    }
}

/// Segments start within the chunk.
pub proof fn lemma_segment_rows(l: LayoutModel, pos: int, row: int, n: int)
    requires
        l.valid(),
        0 <= n,
        0 <= row,
        row + n <= u32::MAX,
        pos <= l.window_end(),
        n > 0 ==> l.window_base <= pos,
    ensures
        forall|k: int|
            0 <= k < segments(l, pos, row, n).len() ==> (#[trigger] segments(
                l,
                pos,
                row,
                n,
            )[k]).chunk_row_start <= row + n,
    decreases n, (if pos < l.window_end() { 0int } else { 1int }),
{
    if n > 0 {
        let room = l.window_end() - pos;
        if n > room {
            super::layout::lemma_slid_valid(l);
            lemma_segment_rows(l.slid(), pos + room, row + room, n - room);
            let rest = segments(l.slid(), pos + room, row + room, n - room);
            let s = segments(l, pos, row, n);
            assert forall|k: int| 0 <= k < s.len() implies (#[trigger] s[k]).chunk_row_start <= row
                + n by {
                if k > 0 {
                    assert(s[k] == rest[k - 1]);
                }
            }
        }
    }
}

/// The strides of the bulk region's heads fit a machine word.
pub proof fn lemma_strides_fit(m: PlaneModel, blocks: int)
    requires
        m.valid(),
        0 <= blocks <= m.num_blocks_total,
    ensures
        ({
            let rows = blocks * m.layout.window_len;
            &&& m.num_blocks_total <= m.bulk_cap
            &&& 0 <= rows * m.head_dim <= m.bulk_cap * m.head_dim
            &&& 0 <= blocks * m.head_dim <= m.num_blocks_total * m.head_dim
            &&& m.num_blocks_total * m.head_dim <= m.bulk_cap * m.head_dim
            &&& 0 <= rows * m.v_row() <= m.bulk_cap * m.v_row()
            &&& m.bulk_cap * m.v_row() <= m.bulk_cap * m.head_dim
            &&& m.n_kv_heads > 0 ==> m.bulk_cap * m.head_dim <= u32::MAX
            &&& m.n_kv_heads * (m.bulk_cap * m.head_dim) <= u32::MAX
            &&& m.n_kv_heads * (m.num_blocks_total * m.head_dim) <= u32::MAX
            &&& m.n_kv_heads * (m.bulk_cap * m.v_row()) <= u32::MAX
        }),
{
    let n = m.n_kv_heads;
    let hd = m.head_dim;
    let cap = m.bulk_cap;
    let rows = blocks * m.layout.window_len;
    let total = m.num_blocks_total;
    lemma_lens_fit(m, blocks);
    assert(total <= cap) by (nonlinear_arith)
        requires
            cap == total * m.layout.window_len,
            1 <= m.layout.window_len,
            1 <= total,
    ;
    assert(0 <= rows * hd <= cap * hd && 0 <= blocks * hd <= total * hd && total * hd <= cap * hd)
        by (nonlinear_arith)
        requires
            0 <= rows <= cap,
            0 <= blocks <= total <= cap,
            0 <= hd,
    ;
    let v = m.v_row();
    assert(0 <= rows * v <= cap * v && cap * v <= cap * hd) by (nonlinear_arith)
        requires
            0 <= rows <= cap,
            0 <= v <= hd,
    ;
    assert(n * (cap * hd) == n * cap * hd) by (nonlinear_arith);
    assert(n * (total * hd) <= n * (cap * hd) && n * (cap * v) <= n * (cap * hd))
        by (nonlinear_arith)
        requires
            0 <= n,
            total * hd <= cap * hd,
            cap * v <= cap * hd,
    ;
    if n > 0 {
        assert(cap * hd <= n * (cap * hd)) by (nonlinear_arith)
            requires
                1 <= n,
                0 <= cap * hd,
        ;
    }
}

proof fn lemma_no_heads(m: PlaneModel, blocks: int)
    requires
        m.n_kv_heads == 0,
    ensures
        forall|stride: nat, prefix: nat|
            #[trigger] head_copies(0, stride, prefix) == Seq::<RangeCopy>::empty(),
{
    assert forall|stride: nat, prefix: nat| #[trigger]
        head_copies(0, stride, prefix) == Seq::<RangeCopy>::empty() by {
        assert(head_copies(0, stride, prefix) =~= Seq::empty());
    }
}

proof fn lemma_scale(n: int, a: int, b: int, hd: int)
    requires
        0 <= n,
        0 <= a <= b,
        0 <= hd,
    ensures
        0 <= n * a <= n * b,
        0 <= n * a * hd <= n * b * hd,
{
    assert(0 <= n * a <= n * b) by (nonlinear_arith)
        requires
            0 <= n,
            0 <= a <= b,
    ;
    assert(0 <= n * a * hd <= n * b * hd) by (nonlinear_arith)
        requires
            0 <= n * a <= n * b,
            0 <= hd,
    ;
}

impl MixedAttnPlane {
    /// The buffers can be addressed and the bookkeeping is consistent.
    pub open spec fn wf(&self) -> bool {
        self@.valid()
    }

    /// An empty plane for `max_seq` positions.
    pub fn new(
        n_kv_heads: u32,
        head_dim: u32,
        max_seq: u32,
        v_bits: u8,
        sink_len: u32,
        window_len: u32,
        rot_sim: Option<RotSimSpec>,
    ) -> (r: Self)
        requires
            mixed_fits(n_kv_heads, head_dim, max_seq, sink_len, window_len),
        ensures
            r.wf(),
            r@ == empty_plane(
                n_kv_heads,
                head_dim,
                max_seq,
                v_bits,
                sink_len,
                window_len,
                rot_sim,
            ),
    {
        let bulk_positions: u32 = max_seq.saturating_sub(sink_len);
        let blocks: u32 = div_ceil(bulk_positions, window_len);
        let num_blocks_total: u32 = if blocks >= 1 {
            blocks
        } else {
            1
        };
        let r = MixedAttnPlane {
            layout: MixedLayout::with_lens(sink_len, window_len),
            v_bits,
            n_kv_heads,
            head_dim,
            bulk_cap: num_blocks_total * window_len,
            num_blocks_total,
            rot_sim,
        };
        proof {
            vstd::arithmetic::div_mod::lemma_div_basics_1(window_len as int);
        }
        r
    }

    /// Width of a stored value.
    pub fn v_bits(&self) -> (r: u8)
        ensures
            r == self@.v_bits,
    {
        self.v_bits
    }

    /// Element counts of the buffers to allocate.
    pub fn lens(&self) -> (r: MixedLens)
        requires
            self.wf(),
        ensures
            r == self@.lens(self@.num_blocks_total),
    {
        self.lens_for(self.num_blocks_total)
    }

    fn lens_for(&self, blocks: u32) -> (r: MixedLens)
        requires
            self.wf(),
            blocks <= self@.num_blocks_total,
        ensures
            r == self@.lens(blocks as int),
    {
        proof {
            lemma_lens_fit(self@, blocks as int);
        }
        let n: u32 = self.n_kv_heads;
        let w: u32 = self.layout.window_len();
        let rows: u32 = blocks * w;
        MixedLens {
            sink: (n * self.layout.sink_len() * self.head_dim) as usize,
            window: (n * w * self.head_dim) as usize,
            bulk_k_codes: (n * rows * self.head_dim) as usize,
            bulk_k_scales: (n * blocks * self.head_dim) as usize,
            bulk_v_codes: (n * rows * self.v_row_width()) as usize,
            bulk_v_scales: (n * rows) as usize,
        }
    }

    /// Stored bytes per position and head of the values: two 4-bit values
    /// share a byte.
    fn v_row_width(&self) -> (r: u32)
        ensures
            r == self@.v_row(),
    {
        if self.v_bits == 8 {
            self.head_dim
        } else {
            self.head_dim / 2
        }
    }

    /// Starts a fresh sequence: nothing is in the bulk region any more.
    pub fn reset(&mut self)
        requires
            old(self).wf(),
        ensures
            final(self).wf(),
            final(self)@ == old(self)@.with_layout(
                LayoutModel { window_base: old(self)@.layout.sink_len, ..old(self)@.layout },
            ),
    {
        self.layout = MixedLayout::with_lens(self.layout.sink_len(), self.layout.window_len());
        proof {
            vstd::arithmetic::div_mod::lemma_div_basics_1(self@.layout.window_len);
        }
    }

    fn push_evict(&self, ops: &mut Vec<Op>, block: u32)
        ensures
            final(ops)@ == old(ops)@ + evict_ops(self@, block),
    {
        let ghost before = ops@;
        let window_len: u32 = self.layout.window_len();
        match self.rot_sim {
            None => {},
            Some(spec) => {
                ops.push(
                    Op::RotSim {
                        bpw: spec.bpw,
                        apply_to_k: spec.apply_to_k,
                        n_kv_heads: self.n_kv_heads,
                        window_len,
                        head_dim: self.head_dim,
                    },
                );
            },
        }
        ops.push(
            Op::QuantizeEvictK {
                n_kv_heads: self.n_kv_heads,
                window_len,
                head_dim: self.head_dim,
                bulk_cap: self.bulk_cap,
                num_blocks_total: self.num_blocks_total,
                block,
            },
        );
        ops.push(
            Op::QuantizeEvictV {
                v_bits: self.v_bits,
                n_kv_heads: self.n_kv_heads,
                window_len,
                head_dim: self.head_dim,
                bulk_cap: self.bulk_cap,
                block,
            },
        );
        proof {
            assert(ops@ =~= before + evict_ops(self@, block));
        }
    }

    /// Appends one position's keys and values.
    pub fn append(&mut self, ops: &mut Vec<Op>, pos: u32)
        requires
            old(self).wf(),
            old(self)@.layout.is_next(pos as int),
            pos < u32::MAX,
            pos <= old(self)@.layout.sink_len + old(self)@.bulk_cap,
        ensures
            final(self).wf(),
            final(self)@ == old(self)@.with_layout(appended(old(self)@.layout, pos as int)),
            final(ops)@ == old(ops)@ + append_ops(old(self)@, pos as int),
    {
        let ghost before = ops@;
        let ghost m = self@;
        let sink_len: u32 = self.layout.sink_len();
        let window_len: u32 = self.layout.window_len();
        proof {
            lemma_lens_fit(m, 1);
        }
        if pos < sink_len {
            push_rows(
                ops,
                KvDtype::F16,
                Buf::SinkK,
                Buf::SinkV,
                sink_len,
                pos,
                self.n_kv_heads,
                self.head_dim,
            );
            return;
        }
        let ghost held = self.layout@;
        let (slot, evicted) = self.layout.prepare_append(pos);
        proof {
            lemma_appended_blocks(m, pos as int);
        }
        let ghost mid = self@;
        match evicted {
            None => {},
            Some(block) => {
                self.push_evict(ops, block);
                proof {
                    assert(evict_ops(self@, block) =~= evict_ops(m, block));
                }
            },
        }
        let ghost evicting = ops@;
        push_rows(
            ops,
            KvDtype::F16,
            Buf::WindowK,
            Buf::WindowV,
            window_len,
            slot,
            self.n_kv_heads,
            self.head_dim,
        );
        proof {
            assert(ops@ =~= before + append_ops(m, pos as int));
        }
    }

    /// Appends a chunk's keys and values at positions from `pos_base` on.
    pub fn append_chunk(&mut self, ops: &mut Vec<Op>, pos_base: u32, chunk_len: u32)
        requires
            old(self).wf(),
            old(self)@.layout.is_next(pos_base as int),
            pos_base + chunk_len <= u32::MAX,
            pos_base + chunk_len <= old(self)@.layout.sink_len + old(self)@.bulk_cap,
            chunk_len * (old(self)@.n_kv_heads * old(self)@.head_dim) <= u32::MAX,
        ensures
            final(self).wf(),
            final(self)@ == old(self)@.with_layout(
                appended_each(old(self)@.layout, pos_base as int, chunk_len as nat),
            ),
            final(ops)@ == old(ops)@ + append_chunk_ops(
                old(self)@,
                pos_base as int,
                chunk_len as int,
            ),
    {
        let ghost before = ops@;
        let ghost m = self@;
        if chunk_len == 0 {
            proof {
                assert(append_chunk_ops(m, pos_base as int, 0) =~= Seq::empty());
                assert(before + append_chunk_ops(m, pos_base as int, 0) =~= before);
            }
            return;
        }
        proof {
            lemma_lens_fit(m, 1);
            assert(0 <= m.n_kv_heads * m.head_dim <= chunk_len * (m.n_kv_heads * m.head_dim))
                by (nonlinear_arith)
                requires
                    0 <= m.n_kv_heads,
                    0 <= m.head_dim,
                    1 <= chunk_len,
            ;
        }
        let row_elems: usize = (self.n_kv_heads * self.head_dim) as usize;
        let (sink, segs) = self.layout.plan_chunk_append(pos_base, chunk_len);
        proof {
            lemma_appended_each_blocks(m, pos_base as int, chunk_len as nat);
            lemma_segment_rows(m.layout, pos_base + sink, sink as int, chunk_len - sink);
        }
        if sink > 0 {
            ops.push(
                self.scatter(
                    Buf::SinkK,
                    Buf::SinkV,
                    self.layout.sink_len(),
                    0,
                    sink,
                    pos_base,
                ),
            );
        }
        let ghost sunk = ops@;
        let mut i: usize = 0;
        proof {
            assert(0 * (m.n_kv_heads * m.head_dim) == 0) by (nonlinear_arith);
            assert(sunk =~= before + (if sink > 0 {
                seq![
                    scatter_op(
                        m,
                        Buf::SinkK,
                        Buf::SinkV,
                        m.layout.sink_len,
                        0,
                        sink,
                        pos_base,
                    ),
                ]
            } else {
                Seq::empty()
            }));
            assert(segs@.take(0) =~= Seq::empty());
            assert(sunk + segments_ops(m, segs@.take(0)) =~= sunk);
        }
        while i < segs.len()
            invariant
                i <= segs@.len(),
                self.wf(),
                self@ == m.with_layout(self@.layout),
                self@.layout.window_len == m.layout.window_len,
                row_elems == m.n_kv_heads * m.head_dim,
                chunk_len * row_elems <= u32::MAX,
                forall|k: int|
                    0 <= k < segs@.len() ==> (#[trigger] segs@[k]).chunk_row_start <= chunk_len,
                ops@ == sunk + segments_ops(m, segs@.take(i as int)),
            decreases segs@.len() - i,
        {
            let seg = segs[i];
            let ghost held = ops@;
            proof {
                assert(seg.chunk_row_start * row_elems <= chunk_len * row_elems)
                    by (nonlinear_arith)
                    requires
                        seg.chunk_row_start <= chunk_len,
                        0 <= row_elems,
                ;
            }
            if seg.len > 0 {
                ops.push(
                    self.scatter(
                        Buf::WindowK,
                        Buf::WindowV,
                        self.layout.window_len(),
                        seg.chunk_row_start as usize * row_elems,
                        seg.len,
                        seg.window_slot_start,
                    ),
                );
            }
            match seg.evict_after {
                None => {},
                Some(block) => {
                    self.push_evict(ops, block);
                    proof {
                        assert(evict_ops(self@, block) =~= evict_ops(m, block));
                    }
                },
            }
            i = i + 1;
            proof {
                let s = segs@.take(i as int);
                assert(s.drop_last() =~= segs@.take(i - 1));
                assert(s.last() == seg);
                assert(ops@ =~= held + segment_ops(m, seg));
                assert(ops@ =~= sunk + segments_ops(m, s));
            }
        }
        proof {
            assert(segs@.take(i as int) =~= segs@);
            assert(ops@ =~= before + append_chunk_ops(m, pos_base as int, chunk_len as int));
        }
    }

    fn scatter(&self, k_dst: Buf, v_dst: Buf, span: u32, offset: usize, rows: u32, slot: u32) -> (r:
        Op)
        ensures
            r == (Op::ScatterKv {
                dtype: KvDtype::F16,
                k_src: At { buf: Buf::AttnK, offset },
                v_src: At { buf: Buf::AttnV, offset },
                k_dst,
                v_dst,
                n_kv_heads: self@.n_kv_heads as u32,
                head_dim: self@.head_dim as u32,
                max_seq: span,
                rows,
                pos_base: slot,
            }),
    {
        Op::ScatterKv {
            dtype: KvDtype::F16,
            k_src: At { buf: Buf::AttnK, offset },
            v_src: At { buf: Buf::AttnV, offset },
            k_dst,
            v_dst,
            n_kv_heads: self.n_kv_heads,
            head_dim: self.head_dim,
            max_seq: span,
            rows,
            pos_base: slot,
        }
    }

    fn transfer(&self, blocks: u32, window_base: u32) -> (r: MixedTransfer)
        requires
            self.wf(),
            blocks == layout_at(self@, window_base).blocks(),
            blocks <= self@.num_blocks_total,
        ensures
            transfers(self@.with_layout(layout_at(self@, window_base)), r),
    {
        proof {
            let m = self@;
            lemma_lens_fit(m, blocks as int);
            lemma_lens_fit(m, m.num_blocks_total);
            lemma_strides_fit(m, blocks as int);
        }
        let heads: usize = self.n_kv_heads as usize;
        let hd: usize = self.head_dim as usize;
        let cap: usize = self.bulk_cap as usize;
        let total: usize = self.num_blocks_total as usize;
        let b: usize = blocks as usize;
        let rows: usize = (blocks * self.layout.window_len()) as usize;
        let v_row: usize = self.v_row_width() as usize;
        let lens = self.lens_for(blocks);
        let bulk = if heads == 0 {
            proof {
                lemma_no_heads(self@, blocks as int);
            }
            BulkCopies {
                k_codes: Vec::new(),
                k_scales: Vec::new(),
                v_codes: Vec::new(),
                v_scales: Vec::new(),
            }
        } else {
            BulkCopies {
                k_codes: head_prefix_copies(heads, cap * hd, rows * hd),
                k_scales: head_prefix_copies(heads, total * hd, b * hd),
                v_codes: head_prefix_copies(heads, cap * v_row, rows * v_row),
                v_scales: head_prefix_copies(heads, cap, rows),
            }
        };
        MixedTransfer { lens, bulk, window_base, v_bits: self.v_bits }
    }

    /// What capturing this layer moves.
    pub fn capture(&self) -> (r: MixedTransfer)
        requires
            self.wf(),
        ensures
            transfers(self@, r),
    {
        let blocks: u32 = self.layout.evicted_blocks();
        let base: u32 = self.layout.window_base();
        proof {
            assert(layout_at(self@, base) =~= self@.layout);
            assert(self@.with_layout(self@.layout) =~= self@);
        }
        self.transfer(blocks, base)
    }

    /// Element counts of a capture.
    pub(crate) fn filled_lens(&self) -> (r: MixedLens)
        requires
            self.wf(),
        ensures
            r == self@.lens(self@.layout.blocks()),
    {
        self.lens_for(self.layout.evicted_blocks())
    }

    /// Bytes a capture of this layer takes.
    pub fn snapshot_byte_size(&self) -> (r: usize)
        requires
            self.wf(),
            captured_bytes(self@) <= usize::MAX,
        ensures
            r == captured_bytes(self@),
    {
        let lens = self.filled_lens();
        (2 * lens.sink + 2 * lens.window) * 2 + lens.bulk_k_codes + lens.bulk_k_scales * 4
            + lens.bulk_v_codes + lens.bulk_v_scales * 4
    }

    /// Checks a captured layer and takes over its bookkeeping; what is left
    /// is to move the data. An error leaves the plane as it was.
    pub fn restore(&mut self, bytes: &AttnLayerBytes) -> (r: Result<MixedTransfer, ConfigError>)
        requires
            old(self).wf(),
        ensures
            final(self).wf(),
            match r {
                Err(e) => {
                    &&& restore_error(old(self)@, bytes@) == Some(e)
                    &&& final(self)@ == old(self)@
                },
                Ok(t) => {
                    &&& restore_error(old(self)@, bytes@) is None
                    &&& final(self)@ == old(self)@.with_layout(
                        layout_at(old(self)@, bytes@->window_base),
                    )
                    &&& transfers(final(self)@, t)
                },
            },
    {
        let ghost m = self@;
        match bytes {
            AttnLayerBytes::Mixed {
                sink_k,
                sink_v,
                window_k,
                window_v,
                bulk_k_codes,
                bulk_k_scales,
                bulk_v_codes,
                bulk_v_scales,
                window_base,
                v_bits,
            } => {
                if *v_bits != self.v_bits {
                    return Err(
                        ConfigError::VBitsMismatch { found: *v_bits, expected: self.v_bits },
                    );
                }
                let l = self.lens_for(0);
                let whole = [
                    (sink_k.len(), l.sink, PlaneField::SinkK),
                    (sink_v.len(), l.sink, PlaneField::SinkV),
                    (window_k.len(), l.window, PlaneField::WindowK),
                    (window_v.len(), l.window, PlaneField::WindowV),
                ];
                match check_exact_lens(&whole) {
                    Err(e) => {
                        return Err(e);
                    },
                    Ok(_) => {},
                }
                let sink_len: u32 = self.layout.sink_len();
                let window_len: u32 = self.layout.window_len();
                let refused = ConfigError::WindowBase {
                    window_base: *window_base,
                    sink_len,
                    window_len,
                };
                let layout = match MixedLayout::from_window_base_with_lens(
                    *window_base,
                    sink_len,
                    window_len,
                ) {
                    None => {
                        return Err(refused);
                    },
                    Some(layout) => layout,
                };
                let blocks: u32 = layout.evicted_blocks();
                proof {
                    assert(layout@ =~= layout_at(m, *window_base));
                }
                if blocks > self.num_blocks_total {
                    return Err(refused);
                }
                let f = self.lens_for(blocks);
                let filled = [
                    (bulk_k_codes.len(), f.bulk_k_codes, PlaneField::BulkKCodes),
                    (bulk_k_scales.len(), f.bulk_k_scales, PlaneField::BulkKScales),
                    (bulk_v_codes.len(), f.bulk_v_codes, PlaneField::BulkVCodes),
                    (bulk_v_scales.len(), f.bulk_v_scales, PlaneField::BulkVScales),
                ];
                match check_exact_lens(&filled) {
                    Err(e) => {
                        return Err(e);
                    },
                    Ok(_) => {},
                }
                let t = self.transfer(blocks, *window_base);
                self.layout = layout;
                Ok(t)
            },
            _ => Err(ConfigError::PlaneNotMixed),
        }
    }

    /// What a kernel that reads this cache needs to know.
    pub fn ptrs(&self) -> (r: MixedPtrs)
        requires
            self.wf(),
        ensures
            r == ptrs_of(self@),
    {
        MixedPtrs {
            sink_k: start(Buf::SinkK),
            sink_v: start(Buf::SinkV),
            window_k: start(Buf::WindowK),
            window_v: start(Buf::WindowV),
            bulk_k_codes: start(Buf::BulkKCodes),
            bulk_k_scales: start(Buf::BulkKScales),
            bulk_v_codes: start(Buf::BulkVCodes),
            bulk_v_scales: start(Buf::BulkVScales),
            sink_len: self.layout.sink_len(),
            window_len: self.layout.window_len(),
            window_base: self.layout.window_base(),
            bulk_cap: self.bulk_cap,
            num_blocks_total: self.num_blocks_total,
            v_bits: self.v_bits,
        }
    }

    /// Rewind storage for this plane's window.
    pub fn new_window_rewind(&self) -> (r: MixedWindowRewind)
        requires
            self.wf(),
        ensures
            r.window_elems == self@.lens(0).window,
            r.window_base == self@.layout.window_base,
    {
        let l = self.lens_for(0);
        MixedWindowRewind { window_elems: l.window, window_base: self.layout.window_base() }
    }

    /// Elements of the window, of keys and of values each.
    pub fn window_elems(&self) -> (r: usize)
        requires
            self.wf(),
        ensures
            r == self@.lens(0).window,
    {
        self.lens_for(0).window
    }

    /// Records where the window is, and tells how many elements of keys, and
    /// of values, to copy with it.
    pub fn save_window(&self, dst: &mut MixedWindowRewind) -> (r: usize)
        requires
            self.wf(),
        ensures
            final(dst).window_base == self@.layout.window_base,
            final(dst).window_elems == old(dst).window_elems,
            r == self@.lens(0).window,
    {
        dst.window_base = self.layout.window_base();
        self.window_elems()
    }

    /// Whether a window of this plane may start there.
    pub fn may_start(&self, window_base: u32) -> (r: bool)
        requires
            self.wf(),
        ensures
            r == window_may_start(self@, window_base),
    {
        match MixedLayout::from_window_base_with_lens(
            window_base,
            self.layout.sink_len(),
            self.layout.window_len(),
        ) {
            None => false,
            Some(layout) => {
                proof {
                    assert(layout@ =~= layout_at(self@, window_base));
                }
                layout.evicted_blocks() <= self.num_blocks_total
            },
        }
    }

    /// Whether a sequence of that length has its window here.
    pub fn is_next(&self, pos: u32) -> (r: bool)
        requires
            self.wf(),
        ensures
            r == self@.layout.is_next(pos as int),
    {
        self.layout.is_next(pos)
    }

    /// Puts the window back where it was recorded, and tells how many elements
    /// of keys, and of values, to copy back with it.
    pub fn restore_window(&mut self, src: &MixedWindowRewind) -> (r: usize)
        requires
            old(self).wf(),
            window_may_start(old(self)@, src.window_base),
        ensures
            final(self).wf(),
            final(self)@ == old(self)@.with_layout(layout_at(old(self)@, src.window_base)),
            r == old(self)@.lens(0).window,
    {
        let ghost m = self@;
        let elems: usize = self.window_elems();
        match MixedLayout::from_window_base_with_lens(
            src.window_base,
            self.layout.sink_len(),
            self.layout.window_len(),
        ) {
            None => {
                proof {
                    assert(layout_at(m, src.window_base).valid());
                    assert(false);
                }
            },
            Some(layout) => {
                proof {
                    assert(layout@ =~= layout_at(m, src.window_base));
                }
                self.layout = layout;
            },
        }
        elems
    }
}

/// What a kernel that reads a mixed cache needs to know.
pub open spec fn ptrs_of(m: PlaneModel) -> MixedPtrs {
    MixedPtrs {
        sink_k: start(Buf::SinkK),
        sink_v: start(Buf::SinkV),
        window_k: start(Buf::WindowK),
        window_v: start(Buf::WindowV),
        bulk_k_codes: start(Buf::BulkKCodes),
        bulk_k_scales: start(Buf::BulkKScales),
        bulk_v_codes: start(Buf::BulkVCodes),
        bulk_v_scales: start(Buf::BulkVScales),
        sink_len: m.layout.sink_len as u32,
        window_len: m.layout.window_len as u32,
        window_base: m.layout.window_base as u32,
        bulk_cap: m.bulk_cap as u32,
        num_blocks_total: m.num_blocks_total as u32,
        v_bits: m.v_bits,
    }
}

/// A rewind point of one mixed layer: a copy of the window on the device, and
/// where it started.
#[derive(Debug, Clone, Copy, PartialEq, Eq, Structural)]
pub struct MixedWindowRewind {
    /// Elements of each of the two window buffers.
    pub window_elems: usize,
    pub window_base: u32,
}

/// Bytes a capture of a mixed layer takes.
pub open spec fn captured_bytes(m: PlaneModel) -> int {
    let f = m.lens(m.layout.blocks());
    (2 * f.sink + 2 * f.window) * 2 + f.bulk_k_codes + f.bulk_k_scales * 4 + f.bulk_v_codes
        + f.bulk_v_scales * 4
}

/// The predicted size of a capture is the size of what is captured.
pub proof fn law_captured_bytes_are_predicted(m: PlaneModel, a: AttnModel)
    requires
        captured_shape(m, a),
    ensures
        a.byte_size() == captured_bytes(m),
{
}

/// A plane made for `max_seq` positions has a block for every window that
/// appending them evicts.
pub proof fn law_every_evicted_block_has_room(
    l: LayoutModel,
    max_seq: int,
    pos: int,
)
    requires
        l.valid(),
        l.sink_len <= pos < max_seq,
        pos == l.window_end(),
    ensures
        0 <= l.blocks() < blocks_for(max_seq, l.sink_len, l.window_len),
{
    let d = l.window_base - l.sink_len;
    let b = l.blocks();
    vstd::arithmetic::div_mod::lemma_fundamental_div_mod(d, l.window_len);
    vstd::arithmetic::div_mod::lemma_div_pos_is_pos(d, l.window_len);
    lemma_ceil_div(max_seq - l.sink_len, l.window_len);
    let n = ceil_div(max_seq - l.sink_len, l.window_len);
    assert(b < n) by (nonlinear_arith)
        requires
            l.window_len * b + l.window_len <= n * l.window_len,
            1 <= l.window_len,
    ;
}

/// Whether a write leaves alone what a rewind to `pos` relies on: the sink
/// below `pos` and the first `blocks` blocks of the bulk region.
pub open spec fn spares(w: CacheWrite, pos: int, blocks: int) -> bool {
    match w {
        CacheWrite::Sink { pos: p, .. } => p >= pos,
        CacheWrite::Window { .. } => true,
        CacheWrite::Evict { block } => block >= blocks,
    }
}

/// Appending after a rewind point never overwrites what the point relies on
/// outside the window: sink positions below it, and the blocks evicted before
/// it.
pub proof fn law_later_appends_spare_the_rewind_point(l: LayoutModel, pos: int, row: int, n: nat)
    requires
        l.valid(),
        l.is_next(pos),
    ensures
        forall|i: int|
            0 <= i < append_each_writes(l, pos, row, n).len() ==> spares(
                #[trigger] append_each_writes(l, pos, row, n)[i],
                pos,
                l.blocks(),
            ),
    decreases n,
{
    if n > 0 {
        let first = append_writes(l, pos, row);
        let next = appended(l, pos);
        super::layout::lemma_slid_valid(l);
        law_later_appends_spare_the_rewind_point(next, pos + 1, row + 1, (n - 1) as nat);
        let rest = append_each_writes(next, pos + 1, row + 1, (n - 1) as nat);
        let all = append_each_writes(l, pos, row, n);
        assert(next.blocks() >= l.blocks());
        assert forall|i: int| 0 <= i < all.len() implies spares(
            #[trigger] all[i],
            pos,
            l.blocks(),
        ) by {
            if i >= first.len() {
                assert(all[i] == rest[i - first.len()]);
                assert(spares(rest[i - first.len()], pos + 1, next.blocks()));
            }
        }
    }
}

/// Fails when a part has another length than expected.
pub fn check_exact_len(actual: usize, expected: usize, field: PlaneField) -> (r: Result<
    (),
    ConfigError,
>)
    ensures
        match len_error(field, actual as nat, expected) {
            Some(e) => r == Err::<(), ConfigError>(e),
            None => r == Ok::<(), ConfigError>(()),
        },
{
    if actual != expected {
        return Err(ConfigError::PlaneLen { field, found: actual, expected });
    }
    Ok(())
}

/// Checks parts one after the other.
fn check_exact_lens(parts: &[(usize, usize, PlaneField); 4]) -> (r: Result<(), ConfigError>)
    ensures
        match r {
            Err(e) => exists|i: int|
                {
                    &&& 0 <= i < 4
                    &&& len_error(#[trigger] parts@[i].2, parts@[i].0 as nat, parts@[i].1) == Some(
                        e,
                    )
                    &&& forall|j: int| 0 <= j < i ==> (#[trigger] parts@[j]).0 == parts@[j].1
                },
            Ok(_) => forall|j: int| 0 <= j < 4 ==> (#[trigger] parts@[j]).0 == parts@[j].1,
        },
{
    let mut i: usize = 0;
    while i < 4
        invariant
            i <= 4,
            forall|j: int| 0 <= j < i ==> (#[trigger] parts@[j]).0 == parts@[j].1,
        decreases 4 - i,
    {
        let (actual, expected, field) = parts[i];
        match check_exact_len(actual, expected, field) {
            Err(e) => {
                assert(len_error(parts@[i as int].2, parts@[i as int].0 as nat, parts@[i as int].1)
                    == Some(e));
                return Err(e);
            },
            Ok(_) => {},
        }
        i = i + 1;
    }
    Ok(())
}

} // verus!
