//! What a cache's buffers hold, and what a capture takes out of them and a
//! restore puts into them.

use super::rewind::same_but_window;
use super::snapshot::{
    attn_error, attn_layer_error, cache_transfers, captured, gdn_error, gdn_layer_error,
    gdn_slot_transfer, layer_transfers, law_restoring_gives_back_what_was_captured,
    restore_all_error, restored_cache, restored_layer, slot_transfers, AttnTransfer,
    CacheTransfers, Filled,
};
use super::{cache_valid, AttnCacheModel, HybridModel};
use crate::load_opts::KvDtype;
use crate::qwen35::cache::copies::{
    law_restored_data_is_captured_again, pulled, pushed, RangeCopy,
};
use crate::qwen35::cache::mixed::{layout_at, lemma_lens_fit, lemma_strides_fit};
use crate::qwen35::cache::plane::{plane_fits, GdnTransfer};
use crate::snapshot::types::{AttnModel, GdnModel};
use vstd::prelude::*;

verus! {

/// The buffers of a full-attention layer.
#[verifier::ext_equal]
pub enum AttnContents {
    DenseF16 { k: Seq<u16>, v: Seq<u16> },
    DenseF32 { k: Seq<u32>, v: Seq<u32> },
    Mixed {
        sink_k: Seq<u16>,
        sink_v: Seq<u16>,
        window_k: Seq<u16>,
        window_v: Seq<u16>,
        bulk_k_codes: Seq<i8>,
        bulk_k_scales: Seq<u32>,
        bulk_v_codes: Seq<u8>,
        bulk_v_scales: Seq<u32>,
    },
}

/// The buffers of every layer. A linear-attention layer's state is captured
/// whole.
#[verifier::ext_equal]
pub struct CacheContents {
    pub gdn: Seq<Option<GdnModel>>,
    pub attn: Seq<Option<AttnContents>>,
}

/// Both buffers of a dense layer have this many elements.
pub open spec fn dense_sized<T>(k: Seq<T>, v: Seq<T>, f: Filled, max_seq: u32) -> bool {
    &&& k.len() == f.n_kv_heads * max_seq * f.head_dim
    &&& v.len() == f.n_kv_heads * max_seq * f.head_dim
}

/// The buffers a layer's cache has.
pub open spec fn attn_sized(c: AttnCacheModel, max_seq: u32, f: Filled, b: AttnContents) -> bool {
    match (c, b) {
        (AttnCacheModel::Dense(KvDtype::F16), AttnContents::DenseF16 { k, v }) => dense_sized(
            k,
            v,
            f,
            max_seq,
        ),
        (AttnCacheModel::Dense(KvDtype::F32), AttnContents::DenseF32 { k, v }) => dense_sized(
            k,
            v,
            f,
            max_seq,
        ),
        (
            AttnCacheModel::Mixed(m),
            AttnContents::Mixed {
                sink_k,
                sink_v,
                window_k,
                window_v,
                bulk_k_codes,
                bulk_k_scales,
                bulk_v_codes,
                bulk_v_scales,
            },
        ) => {
            let l = m.lens(m.num_blocks_total);
            &&& sink_k.len() == l.sink
            &&& sink_v.len() == l.sink
            &&& window_k.len() == l.window
            &&& window_v.len() == l.window
            &&& bulk_k_codes.len() == l.bulk_k_codes
            &&& bulk_k_scales.len() == l.bulk_k_scales
            &&& bulk_v_codes.len() == l.bulk_v_codes
            &&& bulk_v_scales.len() == l.bulk_v_scales
        },
        _ => false,
    }
}

/// The buffers a cache has.
pub open spec fn cache_sized(m: HybridModel, f: Filled, b: CacheContents) -> bool {
    &&& b.gdn.len() == m.gdn.len()
    &&& b.attn.len() == m.attn.len()
    &&& forall|i: int|
        0 <= i < b.gdn.len() ==> match ((#[trigger] b.gdn[i]), m.gdn[i]) {
            (Some(g), Some(s)) => g.conv_state.len() == s.conv_len && g.state.len() == s.state_len,
            (None, None) => true,
            _ => false,
        }
    &&& forall|i: int|
        0 <= i < b.attn.len() ==> match ((#[trigger] b.attn[i]), m.attn[i]) {
            (Some(x), Some(c)) => attn_sized(c, m.max_seq, f, x),
            (None, None) => true,
            _ => false,
        }
}

/// A host buffer of `len` elements after the copies were made into it.
pub open spec fn pulled_out<T>(copies: Seq<RangeCopy>, device: Seq<T>, len: usize, zero: T) -> Seq<
    T,
> {
    pulled(copies, device, Seq::new(len as nat, |i: int| zero))
}

/// What a capture takes out of a full-attention layer's buffers.
pub open spec fn taken_attn(b: AttnContents, t: AttnTransfer) -> Option<AttnModel> {
    match (b, t) {
        (AttnContents::DenseF16 { k, v }, AttnTransfer::Dense(d)) => Some(
            AttnModel::DenseF16 {
                k: pulled_out(d.copies@, k, d.len, 0u16),
                v: pulled_out(d.copies@, v, d.len, 0u16),
            },
        ),
        (AttnContents::DenseF32 { k, v }, AttnTransfer::Dense(d)) => Some(
            AttnModel::DenseF32 {
                k: pulled_out(d.copies@, k, d.len, 0u32),
                v: pulled_out(d.copies@, v, d.len, 0u32),
            },
        ),
        (
            AttnContents::Mixed {
                sink_k,
                sink_v,
                window_k,
                window_v,
                bulk_k_codes,
                bulk_k_scales,
                bulk_v_codes,
                bulk_v_scales,
            },
            AttnTransfer::Mixed(x),
        ) => Some(
            AttnModel::Mixed {
                sink_k: sink_k.take(x.lens.sink as int),
                sink_v: sink_v.take(x.lens.sink as int),
                window_k: window_k.take(x.lens.window as int),
                window_v: window_v.take(x.lens.window as int),
                bulk_k_codes: pulled_out(
                    x.bulk.k_codes@,
                    bulk_k_codes,
                    x.lens.bulk_k_codes,
                    0i8,
                ),
                bulk_k_scales: pulled_out(
                    x.bulk.k_scales@,
                    bulk_k_scales,
                    x.lens.bulk_k_scales,
                    0u32,
                ),
                bulk_v_codes: pulled_out(
                    x.bulk.v_codes@,
                    bulk_v_codes,
                    x.lens.bulk_v_codes,
                    0u8,
                ),
                bulk_v_scales: pulled_out(
                    x.bulk.v_scales@,
                    bulk_v_scales,
                    x.lens.bulk_v_scales,
                    0u32,
                ),
                window_base: x.window_base,
                v_bits: x.v_bits,
            },
        ),
        _ => None,
    }
}

/// A full-attention layer's buffers after a captured layer was put back.
pub open spec fn put_attn(b: AttnContents, t: AttnTransfer, a: AttnModel) -> AttnContents {
    match (b, t, a) {
        (
            AttnContents::DenseF16 { k, v },
            AttnTransfer::Dense(d),
            AttnModel::DenseF16 { k: from_k, v: from_v },
        ) => AttnContents::DenseF16 {
            k: pushed(d.copies@, from_k, k),
            v: pushed(d.copies@, from_v, v),
        },
        (
            AttnContents::DenseF32 { k, v },
            AttnTransfer::Dense(d),
            AttnModel::DenseF32 { k: from_k, v: from_v },
        ) => AttnContents::DenseF32 {
            k: pushed(d.copies@, from_k, k),
            v: pushed(d.copies@, from_v, v),
        },
        (
            AttnContents::Mixed {
                sink_k,
                sink_v,
                window_k,
                window_v,
                bulk_k_codes,
                bulk_k_scales,
                bulk_v_codes,
                bulk_v_scales,
            },
            AttnTransfer::Mixed(x),
            AttnModel::Mixed {
                sink_k: from_sink_k,
                sink_v: from_sink_v,
                window_k: from_window_k,
                window_v: from_window_v,
                bulk_k_codes: from_k_codes,
                bulk_k_scales: from_k_scales,
                bulk_v_codes: from_v_codes,
                bulk_v_scales: from_v_scales,
                window_base,
                v_bits,
            },
        ) => AttnContents::Mixed {
            sink_k: from_sink_k,
            sink_v: from_sink_v,
            window_k: from_window_k,
            window_v: from_window_v,
            bulk_k_codes: pushed(x.bulk.k_codes@, from_k_codes, bulk_k_codes),
            bulk_k_scales: pushed(x.bulk.k_scales@, from_k_scales, bulk_k_scales),
            bulk_v_codes: pushed(x.bulk.v_codes@, from_v_codes, bulk_v_codes),
            bulk_v_scales: pushed(x.bulk.v_scales@, from_v_scales, bulk_v_scales),
        },
        _ => b,
    }
}

/// What a capture takes out of an optional linear-attention layer.
pub open spec fn taken_gdn(b: Option<GdnModel>, t: Option<GdnTransfer>) -> Option<GdnModel> {
    match (b, t) {
        (Some(g), Some(t)) => Some(
            GdnModel {
                conv_state: g.conv_state.take(t.conv_len as int),
                state: g.state.take(t.state_len as int),
            },
        ),
        _ => None,
    }
}

/// What a capture takes out of an optional full-attention layer.
pub open spec fn taken_attn_slot(b: Option<AttnContents>, t: Option<AttnTransfer>) -> Option<
    AttnModel,
> {
    match (b, t) {
        (Some(b), Some(t)) => taken_attn(b, t),
        _ => None,
    }
}

/// An optional full-attention layer's buffers after a restore.
pub open spec fn put_attn_slot(
    b: Option<AttnContents>,
    t: Option<AttnTransfer>,
    a: Option<AttnModel>,
) -> Option<AttnContents> {
    match (b, t, a) {
        (Some(b), Some(t), Some(a)) => Some(put_attn(b, t, a)),
        _ => b,
    }
}

/// What a capture takes out of the linear-attention layers.
pub open spec fn taken_gdns(b: CacheContents, t: CacheTransfers) -> Seq<Option<GdnModel>> {
    Seq::new(b.gdn.len(), |i: int| taken_gdn(b.gdn[i], t.gdn@[i]))
}

/// What a capture takes out of the full-attention layers.
pub open spec fn taken_attns(b: CacheContents, t: CacheTransfers) -> Seq<Option<AttnModel>> {
    Seq::new(b.attn.len(), |i: int| taken_attn_slot(b.attn[i], t.attn@[i]))
}

/// A cache's buffers after a snapshot was put back.
pub open spec fn put(
    b: CacheContents,
    t: CacheTransfers,
    g: Seq<Option<GdnModel>>,
    a: Seq<Option<AttnModel>>,
) -> CacheContents {
    CacheContents {
        gdn: g,
        attn: Seq::new(b.attn.len(), |i: int| put_attn_slot(b.attn[i], t.attn@[i], a[i])),
    }
}

/// A captured layer that was accepted and put back is what a capture of that
/// layer takes out next, whatever its buffers held.
pub proof fn law_restored_layer_is_captured_again(
    c: AttnCacheModel,
    max_seq: u32,
    f: Filled,
    b: AttnContents,
    a: AttnModel,
    t: AttnTransfer,
    u: AttnTransfer,
)
    requires
        c.valid(),
        f.filled <= max_seq,
        plane_fits(f.n_kv_heads, max_seq, f.head_dim),
        attn_sized(c, max_seq, f, b),
        attn_layer_error(Some(c), f, Some(a)) is None,
        layer_transfers(restored_layer(Some(c), Some(a))->0, max_seq, f, t),
        layer_transfers(restored_layer(Some(c), Some(a))->0, max_seq, f, u),
    ensures
        taken_attn(put_attn(b, t, a), u) == Some(a),
{
    match (c, b, a, t, u) {
        (
            AttnCacheModel::Dense(KvDtype::F16),
            AttnContents::DenseF16 { k, v },
            AttnModel::DenseF16 { k: from_k, v: from_v },
            AttnTransfer::Dense(d),
            AttnTransfer::Dense(e),
        ) => {
            lemma_dense_part(f, max_seq, from_k, k, 0u16);
            lemma_dense_part(f, max_seq, from_v, v, 0u16);
        },
        (
            AttnCacheModel::Dense(KvDtype::F32),
            AttnContents::DenseF32 { k, v },
            AttnModel::DenseF32 { k: from_k, v: from_v },
            AttnTransfer::Dense(d),
            AttnTransfer::Dense(e),
        ) => {
            lemma_dense_part(f, max_seq, from_k, k, 0u32);
            lemma_dense_part(f, max_seq, from_v, v, 0u32);
        },
        (
            AttnCacheModel::Mixed(m),
            AttnContents::Mixed {
                sink_k,
                sink_v,
                window_k,
                window_v,
                bulk_k_codes,
                bulk_k_scales,
                bulk_v_codes,
                bulk_v_scales,
            },
            AttnModel::Mixed {
                sink_k: from_sink_k,
                sink_v: from_sink_v,
                window_k: from_window_k,
                window_v: from_window_v,
                bulk_k_codes: from_k_codes,
                bulk_k_scales: from_k_scales,
                bulk_v_codes: from_v_codes,
                bulk_v_scales: from_v_scales,
                window_base,
                v_bits,
            },
            AttnTransfer::Mixed(x),
            AttnTransfer::Mixed(y),
        ) => {
            let r = m.with_layout(layout_at(m, window_base));
            let blocks = r.layout.blocks();
            let w = m.layout.window_len;
            let n = m.n_kv_heads;
            vstd::arithmetic::div_mod::lemma_div_pos_is_pos(
                r.layout.window_base - r.layout.sink_len,
                w,
            );
            lemma_lens_fit(m, blocks);
            lemma_strides_fit(m, blocks);
            lemma_lens_fit(m, m.num_blocks_total);
            lemma_part(n, m.bulk_cap, blocks * w, m.head_dim, from_k_codes, bulk_k_codes, 0i8);
            lemma_part(
                n,
                m.num_blocks_total,
                blocks,
                m.head_dim,
                from_k_scales,
                bulk_k_scales,
                0u32,
            );
            lemma_part(n, m.bulk_cap, blocks * w, m.v_row(), from_v_codes, bulk_v_codes, 0u8);
            assert(n * m.bulk_cap * 1 == n * m.bulk_cap);
            assert(n * (blocks * w) * 1 == n * (blocks * w));
            lemma_part(n, m.bulk_cap, blocks * w, 1, from_v_scales, bulk_v_scales, 0u32);
            assert(from_sink_k.take(y.lens.sink as int) =~= from_sink_k);
            assert(from_sink_v.take(y.lens.sink as int) =~= from_sink_v);
            assert(from_window_k.take(y.lens.window as int) =~= from_window_k);
            assert(from_window_v.take(y.lens.window as int) =~= from_window_v);
        },
        _ => {},
    }
}

/// One part of `rows` rows out of `cap`, each of `width` elements, for every
/// head.
proof fn lemma_part<T>(
    heads: int,
    cap: int,
    rows: int,
    width: int,
    data: Seq<T>,
    device: Seq<T>,
    zero: T,
)
    requires
        0 <= heads,
        0 <= rows <= cap,
        0 <= width,
        heads * cap * width <= usize::MAX,
        data.len() == heads * rows * width,
        device.len() == heads * cap * width,
    ensures
        ({
            let c = crate::qwen35::cache::copies::head_copies(
                heads as nat,
                (cap * width) as nat,
                (rows * width) as nat,
            );
            pulled_out(c, pushed(c, data, device), data.len() as usize, zero) == data
        }),
{
    assert(0 <= rows * width <= cap * width && heads * (cap * width) == heads * cap * width && heads
        * (rows * width) == heads * rows * width && heads * rows * width <= heads * cap * width)
        by (nonlinear_arith)
        requires
            0 <= heads,
            0 <= rows <= cap,
            0 <= width,
    ;
    law_restored_data_is_captured_again(
        heads as nat,
        (cap * width) as nat,
        (rows * width) as nat,
        data,
        device,
        Seq::new(data.len(), |i: int| zero),
    );
}

proof fn lemma_dense_part<T>(f: Filled, max_seq: u32, data: Seq<T>, device: Seq<T>, zero: T)
    requires
        f.filled <= max_seq,
        plane_fits(f.n_kv_heads, max_seq, f.head_dim),
        data.len() == f.elems(),
        device.len() == f.n_kv_heads * max_seq * f.head_dim,
    ensures
        ({
            let c = crate::qwen35::cache::copies::head_copies(
                f.n_kv_heads as nat,
                (max_seq * f.head_dim) as nat,
                (f.filled * f.head_dim) as nat,
            );
            pulled_out(c, pushed(c, data, device), data.len() as usize, zero) == data
        }),
{
    lemma_part(
        f.n_kv_heads as int,
        max_seq as int,
        f.filled as int,
        f.head_dim as int,
        data,
        device,
        zero,
    );
}

proof fn lemma_no_layer_error(
    m: HybridModel,
    f: Filled,
    g: Seq<Option<GdnModel>>,
    a: Seq<Option<AttnModel>>,
    from: int,
    i: int,
)
    requires
        0 <= from <= i,
    ensures
        gdn_error(m, g, from) is None && i < m.gdn.len() ==> gdn_layer_error(m.gdn[i], g[i]) is None,
        attn_error(m, f, a, from) is None && i < m.attn.len() ==> attn_layer_error(
            m.attn[i],
            f,
            a[i],
        ) is None,
    decreases i - from,
{
    if from < i {
        lemma_no_layer_error(m, f, g, a, from + 1, i);
    }
}

/// Whatever a cache's buffers held: after a snapshot was accepted and put
/// back, a capture takes exactly that snapshot's data out of them.
pub proof fn law_capture_after_restore_gives_the_data_back(
    m: HybridModel,
    f: Filled,
    b: CacheContents,
    g: Seq<Option<GdnModel>>,
    a: Seq<Option<AttnModel>>,
    t: CacheTransfers,
    u: CacheTransfers,
)
    requires
        m.valid(),
        f.filled <= m.max_seq,
        plane_fits(f.n_kv_heads, m.max_seq, f.head_dim),
        cache_sized(m, f, b),
        restore_all_error(m, f, g, a) is None,
        cache_transfers(restored_cache(m, a), f, t),
        cache_transfers(restored_cache(m, a), f, u),
    ensures
        taken_gdns(put(b, t, g, a), u) == g,
        taken_attns(put(b, t, g, a), u) == a,
{
    let r = restored_cache(m, a);
    let after = put(b, t, g, a);
    assert forall|i: int| 0 <= i < g.len() implies #[trigger] taken_gdns(after, u)[i] == g[i] by {
        lemma_no_layer_error(m, f, g, a, 0, i);
        assert(u.gdn@[i] == gdn_slot_transfer(r.gdn[i]));
        if g[i] is Some {
            let x = g[i]->0;
            assert(x.conv_state.take(x.conv_state.len() as int) =~= x.conv_state);
            assert(x.state.take(x.state.len() as int) =~= x.state);
        }
    }
    assert(taken_gdns(after, u) =~= g);
    assert forall|i: int| 0 <= i < a.len() implies #[trigger] taken_attns(after, u)[i] == a[i] by {
        lemma_no_layer_error(m, f, g, a, 0, i);
        assert(cache_valid(m.attn[i]));
        assert(slot_transfers(r.attn[i], m.max_seq, f, t.attn@[i]));
        assert(slot_transfers(r.attn[i], m.max_seq, f, u.attn@[i]));
        assert(r.attn[i] == restored_layer(m.attn[i], a[i]));
        let held = b.attn[i];
        match (m.attn[i], held, a[i], t.attn@[i], u.attn@[i]) {
            (Some(c), Some(x), Some(y), Some(p), Some(q)) => {
                law_restored_layer_is_captured_again(c, m.max_seq, f, x, y, p, q);
            },
            _ => {},
        }
    }
    assert(taken_attns(after, u) =~= a);
}

/// What a cache captured can be put into a cache whose windows have moved
/// on and whose buffers hold anything: its bookkeeping is then that of the
/// capture, and capturing again takes the same data out.
pub proof fn law_capture_restore_capture(
    m: HybridModel,
    now: HybridModel,
    f: Filled,
    b: CacheContents,
    g: Seq<Option<GdnModel>>,
    a: Seq<Option<AttnModel>>,
    t: CacheTransfers,
    u: CacheTransfers,
)
    requires
        m.valid(),
        now.valid(),
        captured(m, f, g, a),
        now.max_seq == m.max_seq,
        now.gdn == m.gdn,
        now.has_mixed_layers == m.has_mixed_layers,
        now.attn.len() == m.attn.len(),
        forall|i: int| 0 <= i < now.attn.len() ==> same_but_window(m.attn[i], #[trigger] now.attn[i]),
        f.filled <= m.max_seq,
        plane_fits(f.n_kv_heads, m.max_seq, f.head_dim),
        cache_sized(now, f, b),
        cache_transfers(m, f, t),
        cache_transfers(m, f, u),
    ensures
        restore_all_error(now, f, g, a) is None,
        restored_cache(now, a) == m,
        taken_gdns(put(b, t, g, a), u) == g,
        taken_attns(put(b, t, g, a), u) == a,
{
    law_restoring_gives_back_what_was_captured(m, now, f, g, a);
    law_capture_after_restore_gives_the_data_back(now, f, b, g, a, t, u);
}

} // verus!
