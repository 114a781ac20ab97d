//! Capturing the whole cache into a snapshot, and putting one back. Both
//! sides are checked here; the data itself is moved by whoever owns the
//! device.

use super::{
    cache_valid, cache_view, cache_views, AttnCacheModel, AttnLayerCache, HybridCache, HybridModel,
};
use super::rewind::same_but_window;
use crate::error::ConfigError;
use crate::load_opts::KvDtype;
use crate::qwen35::cache::mixed::{
    captured_bytes, captured_shape, layout_at, restore_error, transfers, MixedTransfer,
};
use crate::qwen35::cache::plane::{
    dense_bytes, dense_restore_error, dense_transfers, gdn_restore_error, gdn_transfer,
    plane_fits, DenseTransfer, GdnLayerState, GdnTransfer,
};
use crate::snapshot::types::{
    attn_total, attn_view, attn_views, gdn_total, gdn_view, gdn_views, AttnLayerBytes, AttnModel,
    GdnLayerBytes, GdnModel,
};
use vstd::prelude::*;

verus! {

/// What capturing or restoring a full-attention layer moves.
#[derive(Debug)]
pub enum AttnTransfer {
    Dense(DenseTransfer),
    Mixed(MixedTransfer),
}

/// What capturing or restoring a cache moves, layer by layer.
#[derive(Debug)]
pub struct CacheTransfers {
    pub gdn: Vec<Option<GdnTransfer>>,
    pub attn: Vec<Option<AttnTransfer>>,
}

/// The dimensions that dense planes share, and how much of them is filled.
#[derive(Debug, Clone, Copy, PartialEq, Eq, Structural)]
pub struct Filled {
    pub n_kv_heads: u32,
    pub head_dim: u32,
    pub filled: u32,
}

impl Filled {
    /// Elements of keys, and of values, in a dense layer's capture.
    pub open spec fn elems(self) -> int {
        self.n_kv_heads * self.filled * self.head_dim
    }
}

/// Whether a transfer moves a layer's filled state.
pub open spec fn layer_transfers(
    c: AttnCacheModel,
    max_seq: u32,
    f: Filled,
    t: AttnTransfer,
) -> bool {
    match (c, t) {
        (AttnCacheModel::Dense(dtype), AttnTransfer::Dense(d)) => dense_transfers(
            dtype,
            f.n_kv_heads,
            max_seq,
            f.head_dim,
            f.filled,
            d,
        ),
        (AttnCacheModel::Mixed(m), AttnTransfer::Mixed(x)) => transfers(m, x),
        _ => false,
    }
}

/// Whether an optional layer is moved, or rightly left out.
pub open spec fn slot_transfers(
    c: Option<AttnCacheModel>,
    max_seq: u32,
    f: Filled,
    t: Option<AttnTransfer>,
) -> bool {
    match (c, t) {
        (Some(c), Some(t)) => layer_transfers(c, max_seq, f, t),
        (None, None) => true,
        _ => false,
    }
}

/// What moves an optional linear-attention layer.
pub open spec fn gdn_slot_transfer(s: Option<GdnLayerState>) -> Option<GdnTransfer> {
    match s {
        None => None,
        Some(s) => Some(gdn_transfer(s)),
    }
}

/// Whether every layer is moved, or rightly left out.
pub open spec fn cache_transfers(m: HybridModel, f: Filled, t: CacheTransfers) -> bool {
    &&& t.gdn@ == m.gdn.map_values(|s: Option<GdnLayerState>| gdn_slot_transfer(s))
    &&& t.attn@.len() == m.attn.len()
    &&& forall|i: int|
        0 <= i < t.attn@.len() ==> slot_transfers(m.attn[i], m.max_seq, f, #[trigger] t.attn@[i])
}

/// What keeps one linear-attention layer from being restored.
pub open spec fn gdn_layer_error(s: Option<GdnLayerState>, g: Option<GdnModel>) -> Option<
    ConfigError,
> {
    match (s, g) {
        (Some(s), Some(g)) => gdn_restore_error(s, g),
        (None, None) => None,
        _ => Some(ConfigError::GdnKindMismatch),
    }
}

/// Every window is where a sequence of that length has it.
pub open spec fn windows_at(m: HybridModel, filled: int) -> bool {
    forall|i: int|
        0 <= i < m.attn.len() ==> ((#[trigger] m.attn[i]) matches Some(AttnCacheModel::Mixed(p))
            ==> p.layout.is_next(filled))
}

/// What keeps one full-attention layer from being restored.
pub open spec fn attn_layer_error(c: Option<AttnCacheModel>, f: Filled, a: Option<AttnModel>) -> Option<
    ConfigError,
> {
    match (c, a) {
        (Some(AttnCacheModel::Dense(dtype)), Some(a)) => dense_restore_error(
            dtype,
            f.elems() as nat,
            a,
        ),
        (Some(AttnCacheModel::Mixed(m)), Some(a)) => restore_error(m, a),
        (None, None) => None,
        _ => Some(ConfigError::AttnKindMismatch),
    }
}

/// The error of the first linear-attention layer, from `i` on, that cannot
/// be restored.
pub open spec fn gdn_error(m: HybridModel, g: Seq<Option<GdnModel>>, i: int) -> Option<ConfigError>
    decreases m.gdn.len() - i,
{
    if i >= m.gdn.len() {
        None
    } else {
        match gdn_layer_error(m.gdn[i], g[i]) {
            Some(e) => Some(e),
            None => gdn_error(m, g, i + 1),
        }
    }
}

/// The error of the first full-attention layer, from `i` on, that cannot be
/// restored.
pub open spec fn attn_error(
    m: HybridModel,
    f: Filled,
    a: Seq<Option<AttnModel>>,
    i: int,
) -> Option<ConfigError>
    decreases m.attn.len() - i,
{
    if i >= m.attn.len() {
        None
    } else {
        match attn_layer_error(m.attn[i], f, a[i]) {
            Some(e) => Some(e),
            None => attn_error(m, f, a, i + 1),
        }
    }
}

/// What keeps a snapshot from being restored: another number of layers, else
/// the first linear-attention layer at fault, else the first full-attention
/// layer at fault.
pub open spec fn restore_all_error(
    m: HybridModel,
    f: Filled,
    g: Seq<Option<GdnModel>>,
    a: Seq<Option<AttnModel>>,
) -> Option<ConfigError> {
    if g.len() != m.gdn.len() || a.len() != m.attn.len() {
        Some(
            ConfigError::LayerCount {
                gdn_found: g.len() as usize,
                gdn_expected: m.gdn.len() as usize,
                attn_found: a.len() as usize,
                attn_expected: m.attn.len() as usize,
            },
        )
    } else {
        match gdn_error(m, g, 0) {
            Some(e) => Some(e),
            None => attn_error(m, f, a, 0),
        }
    }
}

/// The first linear-attention layer, from `i` on, that cannot be restored;
/// their number where all can.
pub open spec fn gdn_good(m: HybridModel, g: Seq<Option<GdnModel>>, i: int) -> int
    decreases m.gdn.len() - i,
{
    if i >= m.gdn.len() || gdn_layer_error(m.gdn[i], g[i]) is Some {
        i
    } else {
        gdn_good(m, g, i + 1)
    }
}

/// The first full-attention layer, from `i` on, that cannot be restored;
/// their number where all can.
pub open spec fn attn_good(m: HybridModel, f: Filled, a: Seq<Option<AttnModel>>, i: int) -> int
    decreases m.attn.len() - i,
{
    if i >= m.attn.len() || attn_layer_error(m.attn[i], f, a[i]) is Some {
        i
    } else {
        attn_good(m, f, a, i + 1)
    }
}

/// How many layers are put back before the first at fault: of the
/// linear-attention list, then of the full-attention list.
pub open spec fn put_back(
    m: HybridModel,
    f: Filled,
    g: Seq<Option<GdnModel>>,
    a: Seq<Option<AttnModel>>,
) -> (int, int) {
    if g.len() != m.gdn.len() || a.len() != m.attn.len() {
        (0, 0)
    } else if gdn_error(m, g, 0) is Some {
        (gdn_good(m, g, 0), 0)
    } else {
        (m.gdn.len() as int, attn_good(m, f, a, 0))
    }
}

/// A layer's cache after a captured layer was put back.
pub open spec fn restored_layer(c: Option<AttnCacheModel>, a: Option<AttnModel>) -> Option<
    AttnCacheModel,
> {
    match (c, a) {
        (Some(AttnCacheModel::Mixed(m)), Some(a)) => Some(
            AttnCacheModel::Mixed(m.with_layout(layout_at(m, a->window_base))),
        ),
        _ => c,
    }
}

/// The cache after a snapshot was put back.
pub open spec fn restored_cache(m: HybridModel, a: Seq<Option<AttnModel>>) -> HybridModel {
    HybridModel {
        attn: Seq::new(m.attn.len(), |i: int| restored_layer(m.attn[i], a[i])),
        ..m
    }
}

/// The cache after a snapshot's first `n` full-attention layers were put
/// back.
pub open spec fn restored_to(m: HybridModel, a: Seq<Option<AttnModel>>, n: int) -> HybridModel {
    HybridModel {
        attn: Seq::new(
            m.attn.len(),
            |i: int|
                if i < n {
                    restored_layer(m.attn[i], a[i])
                } else {
                    m.attn[i]
                },
        ),
        ..m
    }
}

/// Whether the first layers of both lists are moved, and no others.
pub open spec fn transfers_to(
    m: HybridModel,
    f: Filled,
    t: CacheTransfers,
    gdn: int,
    attn: int,
) -> bool {
    &&& t.gdn@ == m.gdn.take(gdn).map_values(|s: Option<GdnLayerState>| gdn_slot_transfer(s))
    &&& t.attn@.len() == attn
    &&& forall|i: int|
        0 <= i < t.attn@.len() ==> slot_transfers(m.attn[i], m.max_seq, f, #[trigger] t.attn@[i])
}

/// What putting a snapshot back moves. Layers are put back in turn, so those
/// before one at fault are moved too.
#[derive(Debug)]
pub struct RestorePlan {
    pub transfers: CacheTransfers,
    /// What is wrong with the first layer that cannot be put back.
    pub error: Option<ConfigError>,
}

/// Whether a plan puts back what a cache takes of a snapshot.
pub open spec fn is_restore_plan(
    m: HybridModel,
    f: Filled,
    g: Seq<Option<GdnModel>>,
    a: Seq<Option<AttnModel>>,
    p: RestorePlan,
) -> bool {
    let (gdn, attn) = put_back(m, f, g, a);
    &&& p.error == restore_all_error(m, f, g, a)
    &&& transfers_to(restored_to(m, a, attn), f, p.transfers, gdn, attn)
}

/// With nothing at fault, the whole snapshot is put back.
pub proof fn lemma_whole_snapshot_put_back(
    m: HybridModel,
    f: Filled,
    g: Seq<Option<GdnModel>>,
    a: Seq<Option<AttnModel>>,
)
    requires
        restore_all_error(m, f, g, a) is None,
    ensures
        put_back(m, f, g, a) == (m.gdn.len() as int, m.attn.len() as int),
        restored_to(m, a, m.attn.len() as int) == restored_cache(m, a),
        forall|p: RestorePlan| #[trigger]
            is_restore_plan(m, f, g, a, p) ==> p.error is None && cache_transfers(
                restored_cache(m, a),
                f,
                p.transfers,
            ),
{
    lemma_all_good(m, f, a, 0);
    assert(restored_to(m, a, m.attn.len() as int) =~= restored_cache(m, a));
    assert(m.gdn.take(m.gdn.len() as int) =~= m.gdn);
}

proof fn lemma_all_good(m: HybridModel, f: Filled, a: Seq<Option<AttnModel>>, i: int)
    requires
        0 <= i <= m.attn.len(),
    ensures
        i <= attn_good(m, f, a, i) <= m.attn.len(),
        attn_error(m, f, a, i) is None <==> attn_good(m, f, a, i) == m.attn.len(),
        forall|k: int|
            i <= k < attn_good(m, f, a, i) ==> attn_layer_error(#[trigger] m.attn[k], f, a[k])
                is None,
    decreases m.attn.len() - i,
{
    if i < m.attn.len() && attn_layer_error(m.attn[i], f, a[i]) is None {
        lemma_all_good(m, f, a, i + 1);
    }
}

/// Bytes a capture of one linear-attention layer takes.
pub open spec fn gdn_slot_bytes(s: Option<GdnLayerState>) -> int {
    match s {
        None => 0,
        Some(s) => (s.conv_len + s.state_len) * 4,
    }
}

/// Bytes a capture of one full-attention layer takes.
pub open spec fn attn_slot_bytes(c: Option<AttnCacheModel>, f: Filled) -> int {
    match c {
        None => 0,
        Some(AttnCacheModel::Dense(dtype)) => dense_bytes(dtype, f.elems()),
        Some(AttnCacheModel::Mixed(m)) => captured_bytes(m),
    }
}

/// Bytes a capture of the first `n` linear-attention layers takes.
pub open spec fn gdn_bytes(m: HybridModel, n: nat) -> int
    decreases n,
{
    if n == 0 {
        0
    } else {
        gdn_bytes(m, (n - 1) as nat) + gdn_slot_bytes(m.gdn[n - 1])
    }
}

/// Bytes a capture of the first `n` full-attention layers takes.
pub open spec fn attn_bytes(m: HybridModel, f: Filled, n: nat) -> int
    decreases n,
{
    if n == 0 {
        0
    } else {
        attn_bytes(m, f, (n - 1) as nat) + attn_slot_bytes(m.attn[n - 1], f)
    }
}

/// Bytes a capture of the whole cache takes.
pub open spec fn cache_bytes(m: HybridModel, f: Filled) -> int {
    gdn_bytes(m, m.gdn.len()) + attn_bytes(m, f, m.attn.len())
}

/// Whether a captured linear-attention layer has the lengths a capture gives
/// it.
pub open spec fn gdn_captured(s: Option<GdnLayerState>, g: Option<GdnModel>) -> bool {
    match (s, g) {
        (Some(s), Some(g)) => g.conv_state.len() == s.conv_len && g.state.len() == s.state_len,
        (None, None) => true,
        _ => false,
    }
}

/// Whether a captured full-attention layer has the lengths a capture gives
/// it.
pub open spec fn attn_captured(c: Option<AttnCacheModel>, f: Filled, a: Option<AttnModel>) -> bool {
    match (c, a) {
        (Some(AttnCacheModel::Dense(KvDtype::F16)), Some(AttnModel::DenseF16 { k, v })) => {
            k.len() == f.elems() && v.len() == f.elems()
        },
        (Some(AttnCacheModel::Dense(KvDtype::F32)), Some(AttnModel::DenseF32 { k, v })) => {
            k.len() == f.elems() && v.len() == f.elems()
        },
        (Some(AttnCacheModel::Mixed(m)), Some(a)) => captured_shape(m, a),
        (None, None) => true,
        _ => false,
    }
}

/// Whether a snapshot's layers have the lengths a capture gives them.
pub open spec fn captured(
    m: HybridModel,
    f: Filled,
    g: Seq<Option<GdnModel>>,
    a: Seq<Option<AttnModel>>,
) -> bool {
    &&& g.len() == m.gdn.len()
    &&& a.len() == m.attn.len()
    &&& forall|i: int| 0 <= i < g.len() ==> gdn_captured(m.gdn[i], #[trigger] g[i])
    &&& forall|i: int| 0 <= i < a.len() ==> attn_captured(m.attn[i], f, #[trigger] a[i])
}

proof fn lemma_gdn_bytes(m: HybridModel, g: Seq<Option<GdnModel>>, n: nat)
    requires
        n <= g.len(),
        g.len() == m.gdn.len(),
        forall|i: int| 0 <= i < g.len() ==> gdn_captured(m.gdn[i], #[trigger] g[i]),
    ensures
        gdn_total(g.take(n as int)) == gdn_bytes(m, n),
    decreases n,
{
    if n > 0 {
        lemma_gdn_bytes(m, g, (n - 1) as nat);
        assert(g.take(n as int).drop_last() =~= g.take(n - 1));
        assert(gdn_captured(m.gdn[n - 1], g[n - 1]));
    }
}

proof fn lemma_attn_bytes(m: HybridModel, f: Filled, a: Seq<Option<AttnModel>>, n: nat)
    requires
        n <= a.len(),
        a.len() == m.attn.len(),
        forall|i: int| 0 <= i < a.len() ==> attn_captured(m.attn[i], f, #[trigger] a[i]),
    ensures
        attn_total(a.take(n as int)) == attn_bytes(m, f, n),
    decreases n,
{
    if n > 0 {
        lemma_attn_bytes(m, f, a, (n - 1) as nat);
        assert(a.take(n as int).drop_last() =~= a.take(n - 1));
        assert(attn_captured(m.attn[n - 1], f, a[n - 1]));
    }
}

/// The size of a capture is known before anything is captured: it is the
/// payload size of what a capture gives, token ids aside.
pub proof fn law_snapshot_size_is_predicted(
    m: HybridModel,
    f: Filled,
    g: Seq<Option<GdnModel>>,
    a: Seq<Option<AttnModel>>,
)
    requires
        captured(m, f, g, a),
    ensures
        gdn_total(g) + attn_total(a) == cache_bytes(m, f),
{
    lemma_gdn_bytes(m, g, g.len());
    lemma_attn_bytes(m, f, a, a.len());
    assert(g.take(g.len() as int) =~= g);
    assert(a.take(a.len() as int) =~= a);
}

proof fn lemma_no_gdn_error(m: HybridModel, g: Seq<Option<GdnModel>>, i: int)
    requires
        0 <= i,
        g.len() == m.gdn.len(),
        forall|k: int| 0 <= k < g.len() ==> gdn_captured(m.gdn[k], #[trigger] g[k]),
    ensures
        gdn_error(m, g, i) is None,
    decreases m.gdn.len() - i,
{
    if i < m.gdn.len() {
        assert(gdn_captured(m.gdn[i], g[i]));
        lemma_no_gdn_error(m, g, i + 1);
    }
}

proof fn lemma_no_attn_error(
    m: HybridModel,
    now: HybridModel,
    f: Filled,
    a: Seq<Option<AttnModel>>,
    i: int,
)
    requires
        0 <= i,
        m.valid(),
        now.valid(),
        a.len() == m.attn.len(),
        now.attn.len() == m.attn.len(),
        forall|k: int| 0 <= k < now.attn.len() ==> same_but_window(m.attn[k], #[trigger] now.attn[k]),
        forall|k: int| 0 <= k < a.len() ==> attn_captured(m.attn[k], f, #[trigger] a[k]),
    ensures
        attn_error(now, f, a, i) is None,
    decreases m.attn.len() - i,
{
    if i < m.attn.len() {
        assert(attn_captured(m.attn[i], f, a[i]));
        assert(cache_valid(m.attn[i]));
        assert(cache_valid(now.attn[i]));
        assert(same_but_window(m.attn[i], now.attn[i]));
        match (m.attn[i], now.attn[i], a[i]) {
            (Some(AttnCacheModel::Mixed(p)), Some(AttnCacheModel::Mixed(q)), Some(x)) => {
                crate::qwen35::cache::mixed::law_captured_state_is_accepted(p, q, x);
            },
            _ => {},
        }
        lemma_no_attn_error(m, now, f, a, i + 1);
    }
}

/// What a cache captured it accepts again, however far its windows have
/// moved since, and its bookkeeping is then what it was at the capture.
pub proof fn law_restoring_gives_back_what_was_captured(
    m: HybridModel,
    now: HybridModel,
    f: Filled,
    g: Seq<Option<GdnModel>>,
    a: Seq<Option<AttnModel>>,
)
    requires
        m.valid(),
        now.valid(),
        captured(m, f, g, a),
        now.max_seq == m.max_seq,
        now.gdn == m.gdn,
        now.has_mixed_layers == m.has_mixed_layers,
        now.attn.len() == m.attn.len(),
        forall|i: int| 0 <= i < now.attn.len() ==> same_but_window(m.attn[i], #[trigger] now.attn[i]),
    ensures
        restore_all_error(now, f, g, a) is None,
        restored_cache(now, a) == m,
{
    lemma_no_gdn_error(now, g, 0);
    lemma_no_attn_error(m, now, f, a, 0);
    assert forall|i: int| 0 <= i < m.attn.len() implies restored_layer(now.attn[i], a[i])
        == m.attn[i] by {
        assert(attn_captured(m.attn[i], f, a[i]));
        assert(same_but_window(m.attn[i], now.attn[i]));
        match (m.attn[i], now.attn[i], a[i]) {
            (Some(AttnCacheModel::Mixed(p)), Some(AttnCacheModel::Mixed(q)), Some(x)) => {
                assert(layout_at(q, x->window_base) =~= p.layout);
                assert(q.with_layout(p.layout) =~= p);
            },
            _ => {},
        }
    }
    assert(restored_cache(now, a).attn =~= m.attn);
}

impl AttnLayerCache {
    /// What capturing this layer moves.
    pub fn capture(&self, f: Filled, max_seq: u32) -> (r: AttnTransfer)
        requires
            self@.valid(),
            f.filled <= max_seq,
            plane_fits(f.n_kv_heads, max_seq, f.head_dim),
        ensures
            layer_transfers(self@, max_seq, f, r),
    {
        match self {
            AttnLayerCache::Dense(p) => AttnTransfer::Dense(
                p.capture(f.n_kv_heads, max_seq, f.head_dim, f.filled),
            ),
            AttnLayerCache::Mixed(p) => AttnTransfer::Mixed(p.capture()),
        }
    }

    /// Checks a captured layer and takes over its bookkeeping. An error
    /// leaves the layer as it was.
    pub fn restore(&mut self, bytes: &AttnLayerBytes, f: Filled, max_seq: u32) -> (r: Result<
        AttnTransfer,
        ConfigError,
    >)
        requires
            old(self)@.valid(),
            f.filled <= max_seq,
            plane_fits(f.n_kv_heads, max_seq, f.head_dim),
        ensures
            final(self)@.valid(),
            match r {
                Err(e) => {
                    &&& attn_layer_error(Some(old(self)@), f, Some(bytes@)) == Some(e)
                    &&& final(self)@ == old(self)@
                },
                Ok(t) => {
                    &&& attn_layer_error(Some(old(self)@), f, Some(bytes@)) is None
                    &&& Some(final(self)@) == restored_layer(Some(old(self)@), Some(bytes@))
                    &&& layer_transfers(final(self)@, max_seq, f, t)
                },
            },
    {
        match *self {
            AttnLayerCache::Dense(p) => {
                match p.restore(bytes, f.n_kv_heads, max_seq, f.head_dim, f.filled) {
                    Err(e) => Err(e),
                    Ok(t) => Ok(AttnTransfer::Dense(t)),
                }
            },
            AttnLayerCache::Mixed(p) => {
                let mut p = p;
                match p.restore(bytes) {
                    Err(e) => Err(e),
                    Ok(t) => {
                        *self = AttnLayerCache::Mixed(p);
                        Ok(AttnTransfer::Mixed(t))
                    },
                }
            },
        }
    }

    /// Bytes a capture of this layer takes.
    pub fn snapshot_byte_size(&self, f: Filled) -> (r: usize)
        requires
            self@.valid(),
            f.n_kv_heads * f.filled <= usize::MAX,
            attn_slot_bytes(Some(self@), f) <= usize::MAX,
        ensures
            r == attn_slot_bytes(Some(self@), f),
    {
        match self {
            AttnLayerCache::Dense(p) => p.snapshot_byte_size(f.n_kv_heads, f.head_dim, f.filled),
            AttnLayerCache::Mixed(p) => p.snapshot_byte_size(),
        }
    }
}

impl AttnLayerCache {
    /// [`Self::snapshot_byte_size`], whatever its magnitude.
    fn wide_byte_size(&self, f: Filled) -> (r: u128)
        requires
            self@.valid(),
            f.n_kv_heads * f.filled <= usize::MAX,
            f.elems() <= usize::MAX,
        ensures
            r == attn_slot_bytes(Some(self@), f),
    {
        match self {
            AttnLayerCache::Dense(p) => {
                let elems: usize = f.n_kv_heads as usize * f.filled as usize * f.head_dim as usize;
                match p.dtype() {
                    KvDtype::F16 => elems as u128 * 2 * 2,
                    KvDtype::F32 => elems as u128 * 4 * 2,
                }
            },
            AttnLayerCache::Mixed(p) => {
                let lens = p.filled_lens();
                (2 * lens.sink as u128 + 2 * lens.window as u128) * 2 + lens.bulk_k_codes as u128
                    + lens.bulk_k_scales as u128 * 4 + lens.bulk_v_codes as u128
                    + lens.bulk_v_scales as u128 * 4
            },
        }
    }
}

fn added(total: usize, more: u128) -> (r: Option<usize>)
    ensures
        r == (if total + more <= usize::MAX {
            Some((total + more) as usize)
        } else {
            None
        }),
{
    if more > usize::MAX as u128 {
        return None;
    }
    total.checked_add(more as usize)
}

impl HybridCache {
    fn gdn_transfers(&self) -> (r: Vec<Option<GdnTransfer>>)
        ensures
            r@ == self@.gdn.map_values(|s: Option<GdnLayerState>| gdn_slot_transfer(s)),
    {
        let mut out: Vec<Option<GdnTransfer>> = Vec::new();
        let mut i: usize = 0;
        while i < self.gdn.len()
            invariant
                i <= self.gdn@.len(),
                out@.len() == i,
                forall|j: int|
                    0 <= j < i ==> #[trigger] out@[j] == gdn_slot_transfer(self.gdn@[j]),
            decreases self.gdn@.len() - i,
        {
            match &self.gdn[i] {
                None => out.push(None),
                Some(s) => out.push(Some(s.capture())),
            }
            i = i + 1;
        }
        proof {
            assert(out@ =~= self@.gdn.map_values(
                |s: Option<GdnLayerState>| gdn_slot_transfer(s),
            ));
        }
        out
    }

    /// What capturing the first `filled` positions moves.
    pub fn capture_all(&self, f: Filled) -> (r: CacheTransfers)
        requires
            self.wf(),
            f.filled <= self@.max_seq,
            plane_fits(f.n_kv_heads, self@.max_seq, f.head_dim),
        ensures
            cache_transfers(self@, f, r),
    {
        let mut out: Vec<Option<AttnTransfer>> = Vec::new();
        let mut i: usize = 0;
        while i < self.attn.len()
            invariant
                self.wf(),
                f.filled <= self@.max_seq,
                plane_fits(f.n_kv_heads, self@.max_seq, f.head_dim),
                i <= self.attn@.len(),
                out@.len() == i,
                forall|j: int|
                    0 <= j < i ==> slot_transfers(
                        self@.attn[j],
                        self@.max_seq,
                        f,
                        #[trigger] out@[j],
                    ),
            decreases self.attn@.len() - i,
        {
            proof {
                assert(self@.attn[i as int] == cache_view(self.attn@[i as int]));
                assert(cache_valid(self@.attn[i as int]));
            }
            match &self.attn[i] {
                None => out.push(None),
                Some(c) => out.push(Some(c.capture(f, self.max_seq))),
            }
            i = i + 1;
        }
        CacheTransfers { gdn: self.gdn_transfers(), attn: out }
    }

    /// Bytes a capture of the first `filled` positions takes.
    pub fn snapshot_byte_size(&self, f: Filled) -> (r: usize)
        requires
            self.wf(),
            f.n_kv_heads * f.filled <= usize::MAX,
            cache_bytes(self@, f) <= usize::MAX,
        ensures
            r == cache_bytes(self@, f),
    {
        let mut total: usize = 0;
        let mut i: usize = 0;
        let ghost m = self@;
        proof {
            lemma_attn_bytes_mono(m, f, 0, m.attn.len());
        }
        while i < self.gdn.len()
            invariant
                m == self@,
                i <= self.gdn@.len(),
                0 <= attn_bytes(m, f, m.attn.len()),
                cache_bytes(m, f) <= usize::MAX,
                total == gdn_bytes(m, i as nat),
            decreases self.gdn@.len() - i,
        {
            proof {
                lemma_gdn_bytes_mono(m, (i + 1) as nat, m.gdn.len());
            }
            match self.gdn[i] {
                None => {},
                Some(s) => {
                    total = total + (s.conv_len + s.state_len) * 4;
                },
            }
            i = i + 1;
        }
        let mut j: usize = 0;
        while j < self.attn.len()
            invariant
                m == self@,
                self.wf(),
                f.n_kv_heads * f.filled <= usize::MAX,
                j <= self.attn@.len(),
                0 <= gdn_bytes(m, m.gdn.len()),
                cache_bytes(m, f) <= usize::MAX,
                total == gdn_bytes(m, m.gdn.len()) + attn_bytes(m, f, j as nat),
            decreases self.attn@.len() - j,
        {
            proof {
                lemma_attn_bytes_mono(m, f, (j + 1) as nat, m.attn.len());
                lemma_attn_bytes_mono(m, f, 0, j as nat);
                assert(m.attn[j as int] == cache_view(self.attn@[j as int]));
                assert(cache_valid(m.attn[j as int]));
            }
            match &self.attn[j] {
                None => {},
                Some(c) => {
                    total = total + c.snapshot_byte_size(f);
                },
            }
            j = j + 1;
        }
        total
    }

    /// [`Self::snapshot_byte_size`] where it fits a machine word.
    pub fn checked_byte_size(&self, f: Filled) -> (r: Option<usize>)
        requires
            self.wf(),
            f.filled <= self@.max_seq,
            plane_fits(f.n_kv_heads, self@.max_seq, f.head_dim),
        ensures
            r == (if cache_bytes(self@, f) <= usize::MAX {
                Some(cache_bytes(self@, f) as usize)
            } else {
                None
            }),
    {
        let mut total: usize = 0;
        let ghost m = self@;
        proof {
            lemma_attn_bytes_mono(m, f, 0, m.attn.len());
            lemma_filled_fits(f, m.max_seq);
        }
        let mut i: usize = 0;
        while i < self.gdn.len()
            invariant
                m == self@,
                i <= self.gdn@.len(),
                0 <= attn_bytes(m, f, m.attn.len()),
                total == gdn_bytes(m, i as nat),
            decreases self.gdn@.len() - i,
        {
            proof {
                lemma_gdn_bytes_mono(m, (i + 1) as nat, m.gdn.len());
            }
            match self.gdn[i] {
                None => {},
                Some(s) => match added(total, (s.conv_len as u128 + s.state_len as u128) * 4) {
                    Some(t) => {
                        total = t;
                    },
                    None => {
                        return None;
                    },
                },
            }
            i = i + 1;
        }
        let mut j: usize = 0;
        while j < self.attn.len()
            invariant
                m == self@,
                self.wf(),
                f.n_kv_heads * f.filled <= usize::MAX,
                f.elems() <= usize::MAX,
                j <= self.attn@.len(),
                total == gdn_bytes(m, m.gdn.len()) + attn_bytes(m, f, j as nat),
            decreases self.attn@.len() - j,
        {
            proof {
                lemma_attn_bytes_mono(m, f, (j + 1) as nat, m.attn.len());
                assert(m.attn[j as int] == cache_view(self.attn@[j as int]));
                assert(cache_valid(m.attn[j as int]));
            }
            match &self.attn[j] {
                None => {},
                Some(c) => match added(total, c.wide_byte_size(f)) {
                    Some(t) => {
                        total = t;
                    },
                    None => {
                        return None;
                    },
                },
            }
            j = j + 1;
        }
        Some(total)
    }

    /// Whether every window is where a sequence of that length has it.
    pub fn windows_are_at(&self, filled: u32) -> (r: bool)
        requires
            self.wf(),
        ensures
            r == windows_at(self@, filled as int),
    {
        let mut i: usize = 0;
        while i < self.attn.len()
            invariant
                self.wf(),
                i <= self.attn@.len(),
                forall|k: int|
                    0 <= k < i ==> ((#[trigger] self@.attn[k]) matches Some(
                        AttnCacheModel::Mixed(p),
                    ) ==> p.layout.is_next(filled as int)),
            decreases self.attn@.len() - i,
        {
            proof {
                assert(self@.attn[i as int] == cache_view(self.attn@[i as int]));
                assert(cache_valid(self@.attn[i as int]));
            }
            let here: bool = match &self.attn[i] {
                Some(AttnLayerCache::Mixed(p)) => p.is_next(filled),
                _ => true,
            };
            if !here {
                return false;
            }
            i = i + 1;
        }
        true
    }

    /// Checks a snapshot layer by layer up to the first at fault; gives every
    /// layer's cache once those before it are put back, and what putting them
    /// back moves.
    fn plan_restore(
        &self,
        f: Filled,
        gdn: &[Option<GdnLayerBytes>],
        attn: &[Option<AttnLayerBytes>],
    ) -> (r: (Vec<Option<AttnLayerCache>>, RestorePlan))
        requires
            self.wf(),
            f.filled <= self@.max_seq,
            plane_fits(f.n_kv_heads, self@.max_seq, f.head_dim),
        ensures
            ({
                let g = gdn_views(gdn@);
                let a = attn_views(attn@);
                let after = restored_to(self@, a, put_back(self@, f, g, a).1);
                &&& is_restore_plan(self@, f, g, a, r.1)
                &&& cache_views(r.0@) == after.attn
                &&& after.valid()
            }),
    {
        let ghost m = self@;
        let ghost g = gdn_views(gdn@);
        let ghost a = attn_views(attn@);
        let counts_match: bool = gdn.len() == self.gdn.len() && attn.len() == self.attn.len();
        let mut error: Option<ConfigError> = None;
        if !counts_match {
            error = Some(
                ConfigError::LayerCount {
                    gdn_found: gdn.len(),
                    gdn_expected: self.gdn.len(),
                    attn_found: attn.len(),
                    attn_expected: self.attn.len(),
                },
            );
        }
        let mut states: Vec<Option<GdnTransfer>> = Vec::new();
        while error.is_none() && states.len() < gdn.len()
            invariant
                m == self@,
                self.wf(),
                g == gdn_views(gdn@),
                counts_match == (gdn@.len() == m.gdn.len() && attn@.len() == m.attn.len()),
                !counts_match ==> error is Some && states@.len() == 0,
                counts_match ==> {
                    &&& states@.len() <= gdn@.len()
                    &&& match error {
                        None => {
                            &&& gdn_error(m, g, 0) == gdn_error(m, g, states@.len() as int)
                            &&& gdn_good(m, g, 0) == gdn_good(m, g, states@.len() as int)
                        },
                        Some(e) => gdn_error(m, g, 0) == Some(e) && gdn_good(m, g, 0)
                            == states@.len(),
                    }
                },
                !counts_match ==> error == Some(
                    ConfigError::LayerCount {
                        gdn_found: gdn@.len() as usize,
                        gdn_expected: m.gdn.len() as usize,
                        attn_found: attn@.len() as usize,
                        attn_expected: m.attn.len() as usize,
                    },
                ),
                forall|k: int|
                    0 <= k < states@.len() ==> #[trigger] states@[k] == gdn_slot_transfer(
                        m.gdn[k],
                    ),
            decreases
                    gdn@.len() - states@.len() + (if error is None {
                        1int
                    } else {
                        0int
                    }),
        {
            let i: usize = states.len();
            proof {
                assert(g[i as int] == gdn_view(gdn@[i as int]));
                assert(m.gdn[i as int] == self.gdn@[i as int]);
            }
            match (&self.gdn[i], &gdn[i]) {
                (Some(s), Some(b)) => {
                    match s.restore(b) {
                        Err(e) => {
                            error = Some(e);
                        },
                        Ok(t) => {
                            states.push(Some(t));
                        },
                    }
                },
                (None, None) => {
                    states.push(None);
                },
                _ => {
                    error = Some(ConfigError::GdnKindMismatch);
                },
            }
        }
        let ghost reached = states@.len() as int;
        let ghost gdn_fault = error;
        proof {
            assert(counts_match ==> (gdn_error(m, g, 0) is Some <==> error is Some));
            assert(states@ =~= m.gdn.take(reached).map_values(
                |s: Option<GdnLayerState>| gdn_slot_transfer(s),
            ));
        }
        let mut planes: Vec<Option<AttnLayerCache>> = Vec::new();
        let mut out: Vec<Option<AttnTransfer>> = Vec::new();
        while error.is_none() && out.len() < attn.len()
            invariant
                m == self@,
                self.wf(),
                a == attn_views(attn@),
                gdn_fault is None ==> attn@.len() == m.attn.len(),
                f.filled <= m.max_seq,
                plane_fits(f.n_kv_heads, m.max_seq, f.head_dim),
                gdn_fault is None ==> out@.len() <= attn@.len(),
                planes@.len() == out@.len(),
                gdn_fault is Some ==> error == gdn_fault && out@.len() == 0,
                gdn_fault is None ==> match error {
                    None => {
                        &&& attn_error(m, f, a, 0) == attn_error(m, f, a, out@.len() as int)
                        &&& attn_good(m, f, a, 0) == attn_good(m, f, a, out@.len() as int)
                    },
                    Some(e) => attn_error(m, f, a, 0) == Some(e) && attn_good(m, f, a, 0)
                        == out@.len(),
                },
                forall|k: int|
                    0 <= k < out@.len() ==> cache_view(#[trigger] planes@[k]) == restored_layer(
                        m.attn[k],
                        a[k],
                    ),
                forall|k: int|
                    0 <= k < out@.len() ==> cache_valid(cache_view(#[trigger] planes@[k])),
                forall|k: int|
                    0 <= k < out@.len() ==> slot_transfers(
                        cache_view(planes@[k]),
                        m.max_seq,
                        f,
                        #[trigger] out@[k],
                    ),
            decreases
                    attn@.len() - out@.len() + (if error is None {
                        1int
                    } else {
                        0int
                    }),
        {
            let j: usize = out.len();
            proof {
                assert(a[j as int] == attn_view(attn@[j as int]));
                assert(m.attn[j as int] == cache_view(self.attn@[j as int]));
                assert(cache_valid(m.attn[j as int]));
            }
            match (self.attn[j], &attn[j]) {
                (Some(c), Some(b)) => {
                    let mut c = c;
                    match c.restore(b, f, self.max_seq) {
                        Err(e) => {
                            error = Some(e);
                        },
                        Ok(t) => {
                            planes.push(Some(c));
                            out.push(Some(t));
                        },
                    }
                },
                (None, None) => {
                    planes.push(None);
                    out.push(None);
                },
                _ => {
                    error = Some(ConfigError::AttnKindMismatch);
                },
            }
        }
        let ghost done = out@.len() as int;
        let ghost after = restored_to(m, a, done);
        proof {
            assert(put_back(m, f, g, a) == (reached, done));
            assert(error == restore_all_error(m, f, g, a));
        }
        while planes.len() < self.attn.len()
            invariant
                m == self@,
                self.wf(),
                0 <= done <= planes@.len() <= m.attn.len(),
                out@.len() == done,
                after == restored_to(m, a, done),
                forall|k: int|
                    0 <= k < planes@.len() ==> cache_view(#[trigger] planes@[k]) == after.attn[k],
                forall|k: int|
                    0 <= k < planes@.len() ==> cache_valid(cache_view(#[trigger] planes@[k])),
                forall|k: int|
                    0 <= k < done ==> slot_transfers(
                        cache_view(planes@[k]),
                        m.max_seq,
                        f,
                        #[trigger] out@[k],
                    ),
            decreases m.attn.len() - planes@.len(),
        {
            let j: usize = planes.len();
            proof {
                assert(m.attn[j as int] == cache_view(self.attn@[j as int]));
                assert(cache_valid(m.attn[j as int]));
            }
            planes.push(self.attn[j]);
        }
        proof {
            assert forall|k: int| 0 <= k < after.attn.len() implies #[trigger] after.attn[k]
                == cache_view(planes@[k]) && cache_valid(after.attn[k]) by {
                assert(cache_valid(cache_view(planes@[k])));
            }
            assert(cache_views(planes@) =~= after.attn);
            assert forall|k: int| 0 <= k < out@.len() implies slot_transfers(
                after.attn[k],
                after.max_seq,
                f,
                #[trigger] out@[k],
            ) by {
                assert(after.attn[k] == cache_view(planes@[k]));
            }
        }
        (planes, RestorePlan { transfers: CacheTransfers { gdn: states, attn: out }, error })
    }

    /// Checks a snapshot, and tells what putting it back moves.
    pub fn check_restore(
        &self,
        f: Filled,
        gdn: &[Option<GdnLayerBytes>],
        attn: &[Option<AttnLayerBytes>],
    ) -> (r: RestorePlan)
        requires
            self.wf(),
            f.filled <= self@.max_seq,
            plane_fits(f.n_kv_heads, self@.max_seq, f.head_dim),
        ensures
            is_restore_plan(self@, f, gdn_views(gdn@), attn_views(attn@), r),
    {
        self.plan_restore(f, gdn, attn).1
    }

    /// Checks a snapshot layer by layer, takes over the bookkeeping of the
    /// layers before the first at fault, and tells what putting those back
    /// moves.
    pub fn restore_all(
        &mut self,
        f: Filled,
        gdn: &[Option<GdnLayerBytes>],
        attn: &[Option<AttnLayerBytes>],
    ) -> (r: RestorePlan)
        requires
            old(self).wf(),
            f.filled <= old(self)@.max_seq,
            plane_fits(f.n_kv_heads, old(self)@.max_seq, f.head_dim),
        ensures
            final(self).wf(),
            is_restore_plan(old(self)@, f, gdn_views(gdn@), attn_views(attn@), r),
            final(self)@ == restored_to(
                old(self)@,
                attn_views(attn@),
                put_back(old(self)@, f, gdn_views(gdn@), attn_views(attn@)).1,
            ),
    {
        let (planes, plan) = self.plan_restore(f, gdn, attn);
        self.attn = planes;
        plan
    }
}

proof fn lemma_gdn_bytes_mono(m: HybridModel, a: nat, b: nat)
    requires
        a <= b,
    ensures
        0 <= gdn_bytes(m, a) <= gdn_bytes(m, b),
    decreases b,
{
    if a < b {
        lemma_gdn_bytes_mono(m, a, (b - 1) as nat);
    } else if a > 0 {
        lemma_gdn_bytes_mono(m, (a - 1) as nat, (a - 1) as nat);
    }
}

proof fn lemma_attn_bytes_mono(m: HybridModel, f: Filled, a: nat, b: nat)
    requires
        a <= b,
    ensures
        0 <= attn_bytes(m, f, a) <= attn_bytes(m, f, b),
    decreases b,
{
    if a < b {
        lemma_attn_bytes_mono(m, f, a, (b - 1) as nat);
        lemma_slot_bytes(m.attn[b - 1], f);
    } else if a > 0 {
        lemma_attn_bytes_mono(m, f, (a - 1) as nat, (a - 1) as nat);
        lemma_slot_bytes(m.attn[a - 1], f);
    }
}

proof fn lemma_filled_fits(f: Filled, max_seq: u32)
    requires
        f.filled <= max_seq,
        plane_fits(f.n_kv_heads, max_seq, f.head_dim),
    ensures
        f.n_kv_heads * f.filled <= usize::MAX,
        f.elems() <= usize::MAX,
{
    let (n, a, b, d) = (
        f.n_kv_heads as int,
        f.filled as int,
        max_seq as int,
        f.head_dim as int,
    );
    assert(n * a <= n * b) by (nonlinear_arith)
        requires
            0 <= n,
            a <= b,
    ;
    assert((n * a) * d <= (n * b) * d) by (nonlinear_arith)
        requires
            n * a <= n * b,
            0 <= d,
    ;
}

proof fn lemma_slot_bytes(c: Option<AttnCacheModel>, f: Filled)
    ensures
        0 <= attn_slot_bytes(c, f),
{
    assert(0 <= f.n_kv_heads * f.filled * f.head_dim) by (nonlinear_arith);
}

} // verus!
