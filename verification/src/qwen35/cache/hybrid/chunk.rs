//! What a capture takes out of a layer that a chunk was appended to.

use super::contents::{taken_attn, AttnContents};
use super::snapshot::AttnTransfer;
use crate::load_opts::KvDtype;
use crate::qwen35::cache::effect::{
    after_each, after_each_dense, after_op, after_ops, law_chunk_leaves_what_its_rows_leave,
    law_dense_chunk_leaves_what_its_rows_leave, DeviceModel, Grid, Memory,
};
use crate::qwen35::cache::layout::{appended, appended_each};
use crate::qwen35::cache::mixed::{append_chunk_ops, transfers, MixedTransfer, PlaneModel};
use crate::qwen35::cache::plane::{dense_transfers, plane_fits, DenseTransfer};
use crate::qwen35::forward::plan::{start, Buf, Op};
use vstd::prelude::*;

verus! {

/// How an element reads as a value of its buffer's type.
#[verifier::reject_recursive_types(T)]
pub struct CellModel<T> {
    pub half: spec_fn(T) -> u16,
    pub single: spec_fn(T) -> u32,
    pub k_code: spec_fn(T) -> i8,
    pub v_code: spec_fn(T) -> u8,
}

/// The first `len` elements of a buffer.
pub open spec fn cells<T, V>(mem: Memory<T>, buf: Buf, len: nat, read: spec_fn(T) -> V) -> Seq<V> {
    Seq::new(len, |i: int| read(mem(buf, i)))
}

/// A mixed layer's buffers.
pub open spec fn mixed_contents<T>(c: CellModel<T>, mem: Memory<T>, m: PlaneModel) -> AttnContents {
    let l = m.lens(m.num_blocks_total);
    AttnContents::Mixed {
        sink_k: cells(mem, Buf::SinkK, l.sink as nat, c.half),
        sink_v: cells(mem, Buf::SinkV, l.sink as nat, c.half),
        window_k: cells(mem, Buf::WindowK, l.window as nat, c.half),
        window_v: cells(mem, Buf::WindowV, l.window as nat, c.half),
        bulk_k_codes: cells(mem, Buf::BulkKCodes, l.bulk_k_codes as nat, c.k_code),
        bulk_k_scales: cells(mem, Buf::BulkKScales, l.bulk_k_scales as nat, c.single),
        bulk_v_codes: cells(mem, Buf::BulkVCodes, l.bulk_v_codes as nat, c.v_code),
        bulk_v_scales: cells(mem, Buf::BulkVScales, l.bulk_v_scales as nat, c.single),
    }
}

/// A dense layer's buffers.
pub open spec fn dense_contents<T>(
    c: CellModel<T>,
    mem: Memory<T>,
    dtype: KvDtype,
    len: nat,
) -> AttnContents {
    match dtype {
        KvDtype::F16 => AttnContents::DenseF16 {
            k: cells(mem, Buf::PlaneK, len, c.half),
            v: cells(mem, Buf::PlaneV, len, c.half),
        },
        KvDtype::F32 => AttnContents::DenseF32 {
            k: cells(mem, Buf::PlaneK, len, c.single),
            v: cells(mem, Buf::PlaneV, len, c.single),
        },
    }
}

/// A mixed layer's bookkeeping after `n` rows were appended one at a time.
pub open spec fn plane_after_each(m: PlaneModel, pos: int, n: nat) -> PlaneModel
    decreases n,
{
    if n == 0 {
        m
    } else {
        plane_after_each(m.with_layout(appended(m.layout, pos)), pos + 1, (n - 1) as nat)
    }
}

proof fn lemma_plane_after_each(m: PlaneModel, pos: int, n: nat)
    ensures
        plane_after_each(m, pos, n) == m.with_layout(appended_each(m.layout, pos, n)),
    decreases n,
{
    if n > 0 {
        lemma_plane_after_each(m.with_layout(appended(m.layout, pos)), pos + 1, (n - 1) as nat);
    }
}

/// A capture of a mixed layer takes out, byte for byte, the same after a chunk
/// was appended as after its rows were appended one at a time, whatever an
/// eviction does to the buffers.
pub proof fn law_chunk_is_captured_as_its_rows<T>(
    d: DeviceModel<T>,
    c: CellModel<T>,
    mem: Memory<T>,
    m: PlaneModel,
    pos: int,
    n: int,
    of_chunk: MixedTransfer,
    of_rows: MixedTransfer,
)
    requires
        m.valid(),
        m.layout.is_next(pos),
        0 <= n,
        pos + n <= u32::MAX,
        pos + n <= m.layout.sink_len + m.bulk_cap,
        n * (m.n_kv_heads * m.head_dim) <= u32::MAX,
        transfers(m.with_layout(appended_each(m.layout, pos, n as nat)), of_chunk),
        transfers(plane_after_each(m, pos, n as nat), of_rows),
    ensures
        ({
            let chunk = mixed_contents(c, after_ops(d, mem, append_chunk_ops(m, pos, n), 0), m);
            let rows = mixed_contents(c, after_each(d, mem, m, pos, 0, n as nat), m);
            let taken = taken_attn(chunk, AttnTransfer::Mixed(of_chunk));
            &&& taken is Some
            &&& taken == taken_attn(rows, AttnTransfer::Mixed(of_rows))
        }),
{
    law_chunk_leaves_what_its_rows_leave(d, mem, m, pos, n);
    lemma_plane_after_each(m, pos, n as nat);
}

/// The same of a dense layer.
pub proof fn law_dense_chunk_is_captured_as_its_rows<T>(
    d: DeviceModel<T>,
    c: CellModel<T>,
    mem: Memory<T>,
    dtype: KvDtype,
    n_kv_heads: u32,
    max_seq: u32,
    head_dim: u32,
    pos: u32,
    rows: u32,
    of_chunk: DenseTransfer,
    of_rows: DenseTransfer,
)
    requires
        plane_fits(n_kv_heads, max_seq, head_dim),
        pos + rows <= max_seq,
        dense_transfers(dtype, n_kv_heads, max_seq, head_dim, (pos + rows) as u32, of_chunk),
        dense_transfers(dtype, n_kv_heads, max_seq, head_dim, (pos + rows) as u32, of_rows),
    ensures
        ({
            let g = Grid {
                heads: n_kv_heads as int,
                span: max_seq as int,
                head_dim: head_dim as int,
            };
            let op = Op::ScatterKv {
                dtype,
                k_src: start(Buf::AttnK),
                v_src: start(Buf::AttnV),
                k_dst: Buf::PlaneK,
                v_dst: Buf::PlaneV,
                n_kv_heads,
                head_dim,
                max_seq,
                rows,
                pos_base: pos,
            };
            let len = (n_kv_heads * max_seq * head_dim) as nat;
            let at_once = dense_contents(c, after_op(d, mem, op, 0), dtype, len);
            let in_turn = dense_contents(
                c,
                after_each_dense(d, mem, dtype, g, pos as int, rows as nat),
                dtype,
                len,
            );
            let taken = taken_attn(at_once, AttnTransfer::Dense(of_chunk));
            &&& taken is Some
            &&& taken == taken_attn(in_turn, AttnTransfer::Dense(of_rows))
        }),
{
    law_dense_chunk_leaves_what_its_rows_leave(
        d,
        mem,
        dtype,
        n_kv_heads,
        max_seq,
        head_dim,
        pos,
        rows,
    );
}

} // verus!
