//! The whole model's decode state, layer by layer: linear-attention layers
//! have convolution and recurrence state, full-attention layers a key/value
//! cache, dense or mixed.

pub mod chunk;
pub mod contents;
pub mod rewind;
pub mod snapshot;
pub mod state;

use self::state::{zeroings, GdnZero};
use super::layout::LayoutModel;
use super::mixed::{empty_plane, mixed_fits, MixedAttnPlane, PlaneModel, RotSimSpec};
use super::plane::{conv_elems, gdn_state, plane_fits, state_elems, AttnPlane, GdnLayerState};
use crate::error::ConfigError;
use crate::load_opts::{KvCacheMode, KvDtype};
use crate::math::div_ceil;
use crate::qwen35::config::{ConfigModel, GdnConfig, LayerKind, Qwen35Config};
use vstd::prelude::*;

verus! {

/// One full-attention layer's key/value cache.
#[derive(Debug, Clone, Copy, PartialEq, Eq, Structural)]
pub enum AttnLayerCache {
    Dense(AttnPlane),
    Mixed(MixedAttnPlane),
}

/// What an [`AttnLayerCache`] knows.
#[verifier::ext_equal]
pub enum AttnCacheModel {
    Dense(KvDtype),
    Mixed(PlaneModel),
}

impl View for AttnLayerCache {
    type V = AttnCacheModel;

    open spec fn view(&self) -> AttnCacheModel {
        match *self {
            AttnLayerCache::Dense(p) => AttnCacheModel::Dense(p.spec_dtype()),
            AttnLayerCache::Mixed(p) => AttnCacheModel::Mixed(p@),
        }
    }
}

impl AttnCacheModel {
    /// The sizes can be addressed.
    pub open spec fn valid(self) -> bool {
        match self {
            AttnCacheModel::Dense(_) => true,
            AttnCacheModel::Mixed(m) => m.valid(),
        }
    }
}

/// The content of an optional key/value cache.
pub open spec fn cache_view(c: Option<AttnLayerCache>) -> Option<AttnCacheModel> {
    match c {
        None => None,
        Some(a) => Some(a@),
    }
}

/// The contents of a run of key/value caches.
pub open spec fn cache_views(c: Seq<Option<AttnLayerCache>>) -> Seq<Option<AttnCacheModel>> {
    c.map_values(|a: Option<AttnLayerCache>| cache_view(a))
}

/// The decode state of every layer.
#[derive(Debug)]
pub struct HybridCache {
    max_seq: u32,
    gdn: Vec<Option<GdnLayerState>>,
    attn: Vec<Option<AttnLayerCache>>,
    has_mixed_layers: bool,
}

/// What a [`HybridCache`] knows.
#[verifier::ext_equal]
pub struct HybridModel {
    pub max_seq: u32,
    pub gdn: Seq<Option<GdnLayerState>>,
    pub attn: Seq<Option<AttnCacheModel>>,
    pub has_mixed_layers: bool,
}

impl View for HybridCache {
    type V = HybridModel;

    closed spec fn view(&self) -> HybridModel {
        HybridModel {
            max_seq: self.max_seq,
            gdn: self.gdn@,
            attn: cache_views(self.attn@),
            has_mixed_layers: self.has_mixed_layers,
        }
    }
}

/// Whether an optional cache's sizes can be addressed.
pub open spec fn cache_valid(c: Option<AttnCacheModel>) -> bool {
    match c {
        None => true,
        Some(a) => a.valid(),
    }
}

impl HybridModel {
    /// Both lists cover every layer, and every cache is consistent.
    pub open spec fn valid(self) -> bool {
        &&& self.gdn.len() == self.attn.len()
        &&& forall|i: int| 0 <= i < self.attn.len() ==> cache_valid(#[trigger] self.attn[i])
    }

    /// With another cache in one layer.
    pub open spec fn with_attn(self, i: int, c: AttnCacheModel) -> HybridModel {
        HybridModel { attn: self.attn.update(i, Some(c)), ..self }
    }
}

/// The longest sequence the cache holds: what the caller asks for, within
/// what the model declares, at least one position.
pub open spec fn max_seq_for(cfg: ConfigModel, ctx: usize) -> u32 {
    let least = if ctx <= cfg.context_length {
        ctx as u32
    } else {
        cfg.context_length
    };
    if least >= 1 {
        least
    } else {
        1
    }
}

/// Whether a layer is the first or the last full-attention layer.
pub open spec fn is_boundary(kinds: Seq<LayerKind>, i: int) -> bool {
    (forall|j: int| 0 <= j < i ==> #[trigger] kinds[j] != LayerKind::FullAttention) || (forall|
        j: int,
    |
        i < j < kinds.len() ==> #[trigger] kinds[j] != LayerKind::FullAttention)
}

/// Everything about the cache's storage that the caller chooses.
#[derive(Debug, Clone, Copy, PartialEq, Eq, Structural)]
pub struct KvOptions {
    pub mode: KvCacheMode,
    pub sink: u32,
    pub window: u32,
    pub rot_sim: Option<RotSimSpec>,
}

/// A layer's linear-attention state in an empty cache.
pub open spec fn empty_gdn(cfg: ConfigModel, i: int) -> Option<GdnLayerState> {
    match cfg.layer_kinds[i] {
        LayerKind::LinearAttention => Some(gdn_state(cfg.gdn)),
        LayerKind::FullAttention => None,
    }
}

/// A layer's key/value cache in an empty cache. Boundary layers stay dense
/// whatever the mode.
pub open spec fn empty_attn(cfg: ConfigModel, max_seq: u32, kv: KvOptions, i: int) -> Option<
    AttnCacheModel,
> {
    match cfg.layer_kinds[i] {
        LayerKind::LinearAttention => None,
        LayerKind::FullAttention => if kv.mode != KvCacheMode::Fp16 && !is_boundary(
            cfg.layer_kinds,
            i,
        ) {
            Some(
                AttnCacheModel::Mixed(
                    empty_plane(
                        cfg.head_count_kv,
                        cfg.head_dim,
                        max_seq,
                        if kv.mode == KvCacheMode::Q4Mixed {
                            4
                        } else {
                            8
                        },
                        kv.sink,
                        kv.window,
                        kv.rot_sim,
                    ),
                ),
            )
        } else {
            Some(AttnCacheModel::Dense(KvDtype::F16))
        },
    }
}

/// The cache of a model before its first token.
pub open spec fn empty_cache(cfg: ConfigModel, ctx: usize, kv: KvOptions) -> HybridModel {
    let max_seq = max_seq_for(cfg, ctx);
    let attn = Seq::new(cfg.layer_kinds.len(), |i: int| empty_attn(cfg, max_seq, kv, i));
    HybridModel {
        max_seq,
        gdn: Seq::new(cfg.layer_kinds.len(), |i: int| empty_gdn(cfg, i)),
        attn,
        has_mixed_layers: exists|i: int|
            0 <= i < attn.len() && (#[trigger] attn[i]) matches Some(AttnCacheModel::Mixed(_)),
    }
}

/// A layer uses the mixed cache.
pub open spec fn is_mixed(c: Option<AttnCacheModel>) -> bool {
    c matches Some(AttnCacheModel::Mixed(_))
}

/// The sizes of a linear-attention layer's state can be addressed.
pub open spec fn gdn_fits(gdn: GdnConfig) -> bool {
    &&& gdn.conv_kernel >= 1
    &&& conv_elems(gdn) <= usize::MAX
    &&& gdn.num_v_heads * gdn.head_k_dim <= usize::MAX
    &&& state_elems(gdn) <= usize::MAX
}

/// The sizes of every layer's state can be addressed.
pub open spec fn cache_fits(cfg: ConfigModel, ctx: usize, kv: KvOptions) -> bool {
    let max_seq = max_seq_for(cfg, ctx);
    &&& gdn_fits(cfg.gdn)
    &&& plane_fits(cfg.head_count_kv, max_seq, cfg.head_dim)
    &&& kv.mode != KvCacheMode::Fp16 ==> mixed_fits(
        cfg.head_count_kv,
        cfg.head_dim,
        max_seq,
        kv.sink,
        kv.window,
    )
}

proof fn lemma_wide(a: int, b: int, c: int)
    requires
        0 <= a <= u32::MAX,
        0 <= b <= u32::MAX,
        0 <= c <= u32::MAX,
    ensures
        0 <= a * b <= u64::MAX,
        0 <= a * b * c <= u128::MAX,
{
    assert(0 <= a * b <= 0xffff_ffff * 0xffff_ffff) by (nonlinear_arith)
        requires
            0 <= a <= 0xffff_ffff,
            0 <= b <= 0xffff_ffff,
    ;
    assert(0 <= a * b * c <= 0xffff_ffff * 0xffff_ffff * 0xffff_ffff) by (nonlinear_arith)
        requires
            0 <= a * b <= 0xffff_ffff * 0xffff_ffff,
            0 <= c <= 0xffff_ffff,
    ;
}

/// Whether `a * b` and `a * b * c` stay within `limit`.
fn products_fit(a: u32, b: u32, c: u32, limit: u128) -> (r: bool)
    ensures
        r == (a * b <= limit && a * b * c <= limit),
{
    proof {
        lemma_wide(a as int, b as int, c as int);
    }
    let ab: u128 = a as u128 * b as u128;
    ab <= limit && ab * c as u128 <= limit
}

/// The longest sequence the cache holds.
pub fn max_seq_of(cfg: &Qwen35Config, ctx: usize) -> (r: u32)
    ensures
        r == max_seq_for(cfg@, ctx),
{
    let least: u32 = if ctx as u64 <= cfg.context_length as u64 {
        ctx as u32
    } else {
        cfg.context_length
    };
    if least >= 1 {
        least
    } else {
        1
    }
}

fn check_mixed_fits(n: u32, hd: u32, max_seq: u32, sink: u32, window: u32) -> (r: bool)
    ensures
        r == mixed_fits(n, hd, max_seq, sink, window),
{
    if window == 0 {
        return false;
    }
    let positions: u32 = max_seq.saturating_sub(sink);
    let whole: u32 = div_ceil(positions, window);
    let blocks: u32 = if whole >= 1 {
        whole
    } else {
        1
    };
    proof {
        lemma_wide(blocks as int, window as int, 0);
    }
    let cap: u64 = blocks as u64 * window as u64;
    if cap > u32::MAX as u64 {
        return false;
    }
    products_fit(n, sink, hd, u32::MAX as u128) && products_fit(n, cap as u32, hd, u32::MAX as u128)
}

/// Whether the sizes of every layer's state can be addressed.
pub fn check_cache_fits(cfg: &Qwen35Config, ctx: usize, kv: &KvOptions) -> (r: bool)
    ensures
        r == cache_fits(cfg@, ctx, *kv),
{
    let max_seq: u32 = max_seq_of(cfg, ctx);
    let limit: u128 = usize::MAX as u128;
    let gdn = cfg.gdn;
    if gdn.conv_kernel == 0 {
        return false;
    }
    let n: u32 = cfg.head_count_kv;
    let hd: u32 = cfg.head_dim;
    let state: bool = products_fit(gdn.num_v_heads, gdn.head_k_dim, gdn.head_v_dim, limit);
    let conv: bool = products_fit(gdn.conv_dim, gdn.conv_kernel - 1, 1, limit);
    let plane: bool = products_fit(n, max_seq, hd, limit) && products_fit(max_seq, hd, 1, limit);
    let mixed: bool = if kv.mode.is_quantized() {
        check_mixed_fits(n, hd, max_seq, kv.sink, kv.window)
    } else {
        true
    };
    state && conv && plane && mixed
}

impl HybridCache {
    /// Both lists cover every layer, and every cache is consistent.
    pub open spec fn wf(&self) -> bool {
        self@.valid()
    }

    /// The empty cache of a model.
    pub fn new(cfg: &Qwen35Config, ctx: usize, kv: &KvOptions) -> (r: Self)
        requires
            cache_fits(cfg@, ctx, *kv),
        ensures
            r.wf(),
            r@ == empty_cache(cfg@, ctx, *kv),
    {
        let max_seq: u32 = max_seq_of(cfg, ctx);
        let n: usize = cfg.layer_kinds.len();
        let ghost kinds = cfg@.layer_kinds;
        let mut first: usize = 0;
        while first < n && cfg.layer_kinds[first] != LayerKind::FullAttention
            invariant
                n == kinds.len(),
                kinds == cfg.layer_kinds@,
                first <= n,
                forall|j: int| 0 <= j < first ==> #[trigger] kinds[j] != LayerKind::FullAttention,
            decreases n - first,
        {
            first = first + 1;
        }
        let mut last: usize = n;
        while last > 0 && cfg.layer_kinds[last - 1] != LayerKind::FullAttention
            invariant
                n == kinds.len(),
                kinds == cfg.layer_kinds@,
                last <= n,
                forall|j: int| last <= j < n ==> #[trigger] kinds[j] != LayerKind::FullAttention,
            decreases last,
        {
            last = last - 1;
        }
        let quantized: bool = kv.mode.is_quantized();
        let v_bits: u8 = kv.mode.v_bits();
        let mut gdn: Vec<Option<GdnLayerState>> = Vec::new();
        let mut attn: Vec<Option<AttnLayerCache>> = Vec::new();
        let mut has_mixed_layers: bool = false;
        let mut i: usize = 0;
        while i < n
            invariant
                i <= n,
                n == kinds.len(),
                kinds == cfg.layer_kinds@,
                kinds == cfg@.layer_kinds,
                max_seq == max_seq_for(cfg@, ctx),
                cache_fits(cfg@, ctx, *kv),
                quantized == (kv.mode != KvCacheMode::Fp16),
                v_bits == (if kv.mode == KvCacheMode::Q4Mixed {
                    4u8
                } else {
                    8u8
                }),
                forall|j: int| 0 <= j < first ==> #[trigger] kinds[j] != LayerKind::FullAttention,
                forall|j: int| last <= j < n ==> #[trigger] kinds[j] != LayerKind::FullAttention,
                first < n ==> kinds[first as int] == LayerKind::FullAttention,
                first <= n,
                last <= n,
                last > 0 ==> kinds[last - 1] == LayerKind::FullAttention,
                gdn@.len() == i,
                attn@.len() == i,
                forall|j: int| 0 <= j < i ==> #[trigger] gdn@[j] == empty_gdn(cfg@, j),
                forall|j: int|
                    0 <= j < i ==> cache_view(#[trigger] attn@[j]) == empty_attn(
                        cfg@,
                        max_seq,
                        *kv,
                        j,
                    ),
                forall|j: int| 0 <= j < i ==> cache_valid(cache_view(#[trigger] attn@[j])),
                has_mixed_layers <==> exists|j: int|
                    0 <= j < i && is_mixed(cache_view(#[trigger] attn@[j])),
            decreases n - i,
        {
            let ghost held = attn@;
            match cfg.layer_kinds[i] {
                LayerKind::LinearAttention => {
                    gdn.push(Some(GdnLayerState::new(&cfg.gdn)));
                    attn.push(None);
                },
                LayerKind::FullAttention => {
                    gdn.push(None);
                    let boundary: bool = i == first || i + 1 == last;
                    proof {
                        assert(boundary == is_boundary(kinds, i as int));
                    }
                    if quantized && !boundary {
                        has_mixed_layers = true;
                        let plane = MixedAttnPlane::new(
                            cfg.head_count_kv,
                            cfg.head_dim,
                            max_seq,
                            v_bits,
                            kv.sink,
                            kv.window,
                            kv.rot_sim,
                        );
                        attn.push(Some(AttnLayerCache::Mixed(plane)));
                    } else {
                        let plane = AttnPlane::new(kv.mode.dense_dtype());
                        attn.push(Some(AttnLayerCache::Dense(plane)));
                    }
                },
            }
            proof {
                assert(forall|j: int| 0 <= j < i ==> attn@[j] == held[j]);
                assert(is_mixed(cache_view(attn@[i as int])) ==> has_mixed_layers);
                if has_mixed_layers && !is_mixed(cache_view(attn@[i as int])) {
                    let j = choose|j: int| 0 <= j < i && is_mixed(cache_view(#[trigger] held[j]));
                    assert(is_mixed(cache_view(attn@[j])));
                }
            }
            i = i + 1;
        }
        let r = HybridCache { max_seq, gdn, attn, has_mixed_layers };
        proof {
            let e = empty_cache(cfg@, ctx, *kv);
            assert(r@.gdn =~= e.gdn);
            assert(r@.attn =~= e.attn);
            assert(forall|j: int|
                0 <= j < n ==> cache_view(#[trigger] attn@[j]) == r@.attn[j]);
            if has_mixed_layers {
                let j = choose|j: int| 0 <= j < n && is_mixed(cache_view(#[trigger] attn@[j]));
                assert(e.attn[j] matches Some(AttnCacheModel::Mixed(_)));
            }
            if e.has_mixed_layers {
                let j = choose|j: int|
                    0 <= j < e.attn.len() && (#[trigger] e.attn[j]) matches Some(
                        AttnCacheModel::Mixed(_),
                    );
                assert(is_mixed(cache_view(attn@[j])));
            }
            assert forall|j: int| 0 <= j < r@.attn.len() implies cache_valid(
                #[trigger] r@.attn[j],
            ) by {
                assert(cache_valid(cache_view(attn@[j])));
            }
        }
        r
    }

    /// The longest sequence the cache holds.
    pub fn max_seq(&self) -> (r: u32)
        ensures
            r == self@.max_seq,
    {
        self.max_seq
    }

    /// Whether any layer uses the mixed cache.
    pub fn has_mixed_layers(&self) -> (r: bool)
        ensures
            r == self@.has_mixed_layers,
    {
        self.has_mixed_layers
    }

    /// Number of layers.
    pub fn len(&self) -> (r: usize)
        requires
            self.wf(),
        ensures
            r == self@.attn.len(),
            r == self@.gdn.len(),
    {
        self.attn.len()
    }

    /// Every layer's key/value cache as it is now.
    pub fn planes(&self) -> (r: Vec<Option<AttnLayerCache>>)
        ensures
            cache_views(r@) == self@.attn,
    {
        let mut out: Vec<Option<AttnLayerCache>> = Vec::new();
        let mut i: usize = 0;
        while i < self.attn.len()
            invariant
                i <= self.attn@.len(),
                out@ == self.attn@.take(i as int),
            decreases self.attn@.len() - i,
        {
            out.push(self.attn[i]);
            i = i + 1;
            proof {
                assert(out@ =~= self.attn@.take(i as int));
            }
        }
        proof {
            assert(self.attn@.take(i as int) =~= self.attn@);
        }
        out
    }

    /// Puts back every layer's key/value cache as it was.
    pub fn put_planes(&mut self, planes: Vec<Option<AttnLayerCache>>)
        requires
            old(self).wf(),
            cache_views(planes@).len() == old(self)@.attn.len(),
            forall|i: int|
                0 <= i < cache_views(planes@).len() ==> cache_valid(
                    #[trigger] cache_views(planes@)[i],
                ),
        ensures
            final(self).wf(),
            final(self)@ == (HybridModel { attn: cache_views(planes@), ..old(self)@ }),
    {
        self.attn = planes;
    }

    /// A layer's linear-attention state.
    pub fn gdn_mut(&mut self, layer_idx: usize) -> (r: Result<&mut GdnLayerState, ConfigError>)
        requires
            old(self).wf(),
        ensures
            match r {
                Ok(s) => {
                    &&& layer_idx < old(self)@.gdn.len()
                    &&& old(self)@.gdn[layer_idx as int] == Some(*s)
                    &&& final(self)@ == (HybridModel {
                        gdn: old(self)@.gdn.update(layer_idx as int, Some(*final(s))),
                        ..old(self)@
                    })
                },
                Err(e) => {
                    &&& e == ConfigError::NoGdnState { layer: layer_idx }
                    &&& layer_idx >= old(self)@.gdn.len() || old(self)@.gdn[layer_idx as int]
                        is None
                    &&& final(self)@ == old(self)@
                },
            },
    {
        if layer_idx >= self.gdn.len() {
            return Err(ConfigError::NoGdnState { layer: layer_idx });
        }
        match &mut self.gdn[layer_idx] {
            Some(s) => Ok(s),
            None => Err(ConfigError::NoGdnState { layer: layer_idx }),
        }
    }

    /// A layer's key/value cache.
    pub fn attn_mut(&mut self, layer_idx: usize) -> (r: Result<&mut AttnLayerCache, ConfigError>)
        requires
            old(self).wf(),
        ensures
            match r {
                Ok(c) => {
                    &&& layer_idx < old(self)@.attn.len()
                    &&& old(self)@.attn[layer_idx as int] == Some((*c)@)
                    &&& final(self)@ == old(self)@.with_attn(layer_idx as int, (*final(c))@)
                },
                Err(e) => {
                    &&& e == ConfigError::NoAttnPlane { layer: layer_idx }
                    &&& layer_idx >= old(self)@.attn.len() || old(self)@.attn[layer_idx as int]
                        is None
                    &&& final(self)@ == old(self)@
                },
            },
    {
        if layer_idx >= self.attn.len() {
            return Err(ConfigError::NoAttnPlane { layer: layer_idx });
        }
        let ghost before = self.attn@;
        match &mut self.attn[layer_idx] {
            Some(c) => {
                proof {
                    let c2 = *final(c);
                    assert(cache_views(before.update(layer_idx as int, Some(c2))) =~= cache_views(
                        before,
                    ).update(layer_idx as int, Some(c2@)));
                }
                Ok(c)
            },
            None => Err(ConfigError::NoAttnPlane { layer: layer_idx }),
        }
    }

    /// A layer's key/value plane, which has to be dense.
    pub fn attn_dense_mut(&mut self, layer_idx: usize) -> (r: Result<&mut AttnPlane, ConfigError>)
        requires
            old(self).wf(),
        ensures
            match r {
                Ok(p) => {
                    &&& layer_idx < old(self)@.attn.len()
                    &&& old(self)@.attn[layer_idx as int] == Some(
                        AttnCacheModel::Dense((*p).spec_dtype()),
                    )
                    &&& final(self)@ == old(self)@.with_attn(
                        layer_idx as int,
                        AttnCacheModel::Dense((*final(p)).spec_dtype()),
                    )
                },
                Err(e) => {
                    &&& final(self)@ == old(self)@
                    &&& if layer_idx >= old(self)@.attn.len() || old(self)@.attn[layer_idx as int]
                        is None {
                        e == ConfigError::NoAttnPlane { layer: layer_idx }
                    } else {
                        &&& is_mixed(old(self)@.attn[layer_idx as int])
                        &&& e == ConfigError::MixedPlane { layer: layer_idx }
                    }
                },
            },
    {
        let ghost before = self@;
        match self.attn_mut(layer_idx) {
            Err(e) => Err(e),
            Ok(c) => {
                let ghost held = (*c)@;
                match c {
                    AttnLayerCache::Dense(p) => Ok(p),
                    AttnLayerCache::Mixed(_) => {
                        proof {
                            assert(before.attn.update(layer_idx as int, Some(held))
                                =~= before.attn);
                        }
                        Err(ConfigError::MixedPlane { layer: layer_idx })
                    },
                }
            },
        }
    }

    /// Starts a fresh sequence: every mixed cache's bulk region reads as
    /// empty again, and every linear-attention layer's state is to be zeroed
    /// as told. Dense planes need nothing, since what lies past the current
    /// position is never read.
    pub fn reset(&mut self) -> (r: Vec<GdnZero>)
        requires
            old(self).wf(),
        ensures
            final(self).wf(),
            final(self)@ == reset_cache(old(self)@),
            r@ == zeroings(old(self)@),
    {
        let zeroed = self.zeroings();
        let ghost before = self@;
        let ghost held = self.attn@;
        let mut i: usize = 0;
        while i < self.attn.len()
            invariant
                i <= self.attn@.len(),
                self.attn@.len() == held.len(),
                before.valid(),
                before.attn == cache_views(held),
                self.max_seq == before.max_seq,
                self.gdn@ == before.gdn,
                self.has_mixed_layers == before.has_mixed_layers,
                forall|j: int| i <= j < held.len() ==> self.attn@[j] == held[j],
                forall|j: int|
                    0 <= j < i ==> cache_view(#[trigger] self.attn@[j]) == reset_layer(
                        before.attn[j],
                    ),
            decreases self.attn@.len() - i,
        {
            let c = self.attn[i];
            proof {
                assert(cache_valid(before.attn[i as int]));
            }
            match c {
                Some(AttnLayerCache::Mixed(p)) => {
                    let mut p = p;
                    p.reset();
                    self.attn.set(i, Some(AttnLayerCache::Mixed(p)));
                },
                _ => {},
            }
            i = i + 1;
        }
        proof {
            let after = reset_cache(before);
            assert(self@.attn =~= after.attn) by {
                assert forall|j: int| 0 <= j < after.attn.len() implies self@.attn[j]
                    == after.attn[j] by {
                    assert(cache_view(self.attn@[j]) == reset_layer(before.attn[j]));
                }
            }
            assert forall|j: int| 0 <= j < self@.attn.len() implies cache_valid(
                #[trigger] self@.attn[j],
            ) by {
                assert(cache_valid(before.attn[j]));
                lemma_reset_layer_valid(before.attn[j]);
            }
        }
        zeroed
    }
}

/// A layer's cache with nothing in the bulk region.
pub open spec fn reset_layer(c: Option<AttnCacheModel>) -> Option<AttnCacheModel> {
    match c {
        Some(AttnCacheModel::Mixed(m)) => Some(
            AttnCacheModel::Mixed(
                m.with_layout(LayoutModel { window_base: m.layout.sink_len, ..m.layout }),
            ),
        ),
        _ => c,
    }
}

/// The cache at the start of a fresh sequence.
pub open spec fn reset_cache(m: HybridModel) -> HybridModel {
    HybridModel { attn: m.attn.map_values(|c: Option<AttnCacheModel>| reset_layer(c)), ..m }
}

proof fn lemma_reset_layer_valid(c: Option<AttnCacheModel>)
    requires
        cache_valid(c),
    ensures
        cache_valid(reset_layer(c)),
{
    match c {
        Some(AttnCacheModel::Mixed(m)) => {
            vstd::arithmetic::div_mod::lemma_small_mod(0, m.layout.window_len as nat);
            vstd::arithmetic::div_mod::lemma_div_basics_1(m.layout.window_len);
        },
        _ => {},
    }
}

/// A fresh sequence starts from the cache a freshly loaded model has.
pub proof fn law_reset_gives_the_empty_cache(cfg: ConfigModel, ctx: usize, kv: KvOptions)
    ensures
        reset_cache(empty_cache(cfg, ctx, kv)) == empty_cache(cfg, ctx, kv),
{
    let e = empty_cache(cfg, ctx, kv);
    assert(reset_cache(e).attn =~= e.attn);
}

} // verus!
