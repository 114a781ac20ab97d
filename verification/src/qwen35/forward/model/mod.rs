//! The model's decode state: configuration, layers, cache, rewind points and
//! position. Everything the device is asked to do comes out of it as a plan.

pub mod load;
pub mod pass;
pub mod prompt;
pub mod state;

use super::dims::check_dims_fit;
use super::layer::{layer_at, layer_fits, layer_ok, sizes_fit, PassParams};
use super::moe::{cache_model, cache_ready};
use super::rewind::{PointModel, PointsModel, RewindPoints};
use crate::error::ConfigError;
use crate::qwen35::cache::hybrid::rewind::{
    layout_matches, restorable, rewound_layer, same_but_window,
};
use crate::qwen35::cache::hybrid::{
    cache_fits, cache_valid, cache_views, empty_attn, empty_cache, max_seq_for, max_seq_of,
    AttnCacheModel, AttnLayerCache, HybridCache, HybridModel, KvOptions,
};
use crate::qwen35::cache::plane::plane_fits;
use crate::qwen35::config::{ConfigModel, LayerKind, Qwen35Config};
use crate::qwen35::moe::expert_cache::{CacheModel, ExpertCache};
use crate::qwen35::weights::{Ffn, LayerWeights};
use vstd::prelude::*;

verus! {

/// Tokens the chunk buffers hold.
pub const CHUNK_CAP: u32 = 512;

/// A pass that waits for a router's choice.
#[derive(Debug, Clone, Copy, PartialEq, Eq, Structural)]
pub struct Pending {
    pub params: PassParams,
    pub layer: usize,
    /// Row of the chunk, where rows are routed one at a time.
    pub row: u32,
}

/// A pass that has begun and whose device work is not known to have
/// succeeded: its tokens, every layer's cache before it, and how many experts
/// had been copied to the cache by then.
#[derive(Debug)]
pub struct Begun {
    pub rows: u32,
    pub attn: Vec<Option<AttnLayerCache>>,
    pub misses: u64,
}

/// What a [`Begun`] knows.
#[verifier::ext_equal]
pub struct BegunModel {
    pub rows: u32,
    pub attn: Seq<Option<AttnCacheModel>>,
    pub misses: u64,
}

/// What an optional [`Begun`] knows.
pub open spec fn begun_view(b: Option<Begun>) -> Option<BegunModel> {
    match b {
        None => None,
        Some(b) => Some(
            BegunModel { rows: b.rows, attn: cache_views(b.attn@), misses: b.misses },
        ),
    }
}

/// A loaded model.
pub struct Model {
    config: Qwen35Config,
    layers: Vec<LayerWeights>,
    cache: HybridCache,
    rewind: RewindPoints,
    expert_cache: Option<ExpertCache>,
    pos: u32,
    begun: Option<Begun>,
    pending: Option<Pending>,
}

/// What a [`Model`] knows.
#[verifier::ext_equal]
pub struct ModelState {
    pub config: ConfigModel,
    pub layers: Seq<LayerWeights>,
    pub cache: HybridModel,
    pub points: PointsModel,
    pub experts: Option<CacheModel>,
    /// Tokens of the passes that succeeded.
    pub pos: u32,
    pub begun: Option<BegunModel>,
    pub pending: Option<Pending>,
}

impl View for Model {
    type V = ModelState;

    closed spec fn view(&self) -> ModelState {
        ModelState {
            config: self.config@,
            layers: self.layers@,
            cache: self.cache@,
            points: self.rewind@,
            experts: cache_model(self.expert_cache),
            pos: self.pos,
            begun: begun_view(self.begun),
            pending: self.pending,
        }
    }
}

/// A pass from `pos` on fits the buffers and the cache.
pub open spec fn pass_fits(p: PassParams, pos: int, max_seq: u32) -> bool {
    &&& 1 <= p.rows <= CHUNK_CAP
    &&& pos + p.rows <= max_seq
    &&& p.chunk || p.rows == 1
}

/// A rewind point belongs to this cache, and a valid one can be restored.
pub open spec fn point_usable(c: ConfigModel, m: HybridModel, p: Option<PointModel>) -> bool {
    match p {
        None => true,
        Some(p) => {
            &&& layout_matches(m, p.storage)
            &&& p.prefix matches Some(x) ==> {
                &&& restorable(m, p.storage)
                &&& x.len() <= m.max_seq
                &&& forall|i: int|
                    0 <= i < m.attn.len() ==> layer_ok(
                        c,
                        rewound_layer(#[trigger] m.attn[i], p.storage.mixed[i]),
                        m.max_seq,
                    )
            }
        },
    }
}

/// A pass can be given up: every layer's cache before it is one of this
/// cache's, at the position the pass began at.
pub open spec fn begun_fits(c: ConfigModel, m: HybridModel, pos: int, b: BegunModel) -> bool {
    &&& pos + b.rows <= m.max_seq
    &&& b.attn.len() == m.attn.len()
    &&& forall|i: int|
        0 <= i < b.attn.len() ==> {
            &&& cache_valid(#[trigger] b.attn[i])
            &&& same_but_window(b.attn[i], m.attn[i])
            &&& layer_at(c, b.attn[i], m.max_seq, pos)
        }
}

impl ModelState {
    /// The next position a layer's cache takes. Layers that a pass has been
    /// through are ahead.
    pub open spec fn layer_pos(self, i: int) -> int {
        match (self.begun, self.pending) {
            (None, _) => self.pos as int,
            (Some(b), None) => self.pos + b.rows,
            (Some(b), Some(q)) => if i <= q.layer {
                self.pos + b.rows
            } else {
                self.pos as int
            },
        }
    }

    /// Every layer's cache is where the position has it. A snapshot that was
    /// tampered with, or that was put back in part, can leave one elsewhere.
    pub open spec fn settled(self) -> bool {
        forall|i: int|
            0 <= i < self.cache.attn.len() ==> layer_at(
                self.config,
                #[trigger] self.cache.attn[i],
                self.cache.max_seq,
                self.layer_pos(i),
            )
    }

    /// Weights, caches and configuration belong together, a pass only begins
    /// where every cache is at the model's position, and every rewind point
    /// can be used.
    pub open spec fn valid(self) -> bool {
        &&& sizes_fit(self.config, self.cache.max_seq, CHUNK_CAP as int)
        &&& self.cache.valid()
        &&& self.layers.len() == self.config.layer_kinds.len()
        &&& self.layers.len() == self.cache.attn.len()
        &&& self.layers.len() <= u32::MAX
        &&& forall|i: int|
            0 <= i < self.layers.len() ==> layer_fits(
                self.config,
                self.cache,
                #[trigger] self.layers[i],
                i,
            )
        &&& forall|i: int|
            0 <= i < self.cache.attn.len() ==> layer_ok(
                self.config,
                #[trigger] self.cache.attn[i],
                self.cache.max_seq,
            )
        &&& self.begun is Some ==> self.settled()
        &&& self.pos <= self.cache.max_seq
        &&& self.config.moe matches Some(m) ==> m.expert_used_count >= 1
        &&& self.pending matches Some(q) ==> {
            &&& q.layer < self.layers.len()
            &&& self.layers[q.layer as int].spec_ffn() is Moe
            &&& pass_fits(q.params, self.pos as int, self.cache.max_seq)
            &&& q.row < q.params.rows
            &&& self.begun is Some
            &&& self.begun->0.rows == q.params.rows
        }
        &&& self.begun matches Some(b) ==> begun_fits(self.config, self.cache, self.pos as int, b)
        &&& point_usable(self.config, self.cache, self.points.stable_boundary)
        &&& point_usable(self.config, self.cache, self.points.end_of_turn)
    }

    /// The cache counters of a mixture of experts have room for one more
    /// layer.
    pub open spec fn counters_have_room(self) -> bool {
        self.experts matches Some(c) ==> c.hits + u32::MAX <= u64::MAX && c.misses + u32::MAX
            <= u64::MAX
    }
}

/// The first layer, from `i` on, whose weights are not of its kind, or whose
/// mixture of experts has no configuration.
pub open spec fn layers_error(c: ConfigModel, layers: Seq<LayerWeights>, i: int) -> Option<
    ConfigError,
>
    decreases layers.len() - i,
{
    if i >= layers.len() {
        None
    } else if !layers[i].is_kind(c.layer_kinds[i]) {
        Some(ConfigError::WeightKindMismatch { layer: i as usize })
    } else if layers[i].spec_ffn() is Moe && c.moe is None {
        Some(ConfigError::MoeNoConfig)
    } else {
        layers_error(c, layers, i + 1)
    }
}

/// Why a model cannot be made of these parts, if anything.
pub open spec fn parts_error(c: ConfigModel, layers: Seq<LayerWeights>) -> Option<ConfigError> {
    if layers.len() != c.layer_kinds.len() {
        let n = if layers.len() < c.layer_kinds.len() {
            layers.len()
        } else {
            c.layer_kinds.len()
        };
        Some(ConfigError::WeightKindMismatch { layer: n as usize })
    } else {
        layers_error(c, layers, 0)
    }
}

/// A model before its first token.
pub open spec fn fresh_model(
    c: ConfigModel,
    layers: Seq<LayerWeights>,
    ctx: usize,
    kv: KvOptions,
    experts: Option<CacheModel>,
) -> ModelState {
    ModelState {
        config: c,
        layers,
        cache: empty_cache(c, ctx, kv),
        points: PointsModel { stable_boundary: None, end_of_turn: None },
        experts,
        pos: 0,
        begun: None,
        pending: None,
    }
}

/// An empty layer's cache is at the first position, and has room for every
/// one the sequence may grow to.
pub proof fn lemma_empty_layer_at(c: ConfigModel, ctx: usize, kv: KvOptions, i: int)
    requires
        cache_fits(c, ctx, kv),
        0 <= i < c.layer_kinds.len(),
    ensures
        layer_at(
            c,
            empty_attn(c, max_seq_for(c, ctx), kv, i),
            max_seq_for(c, ctx),
            0,
        ),
{
    let max_seq = max_seq_for(c, ctx);
    match empty_attn(c, max_seq, kv, i) {
        Some(AttnCacheModel::Mixed(m)) => {
            vstd::arithmetic::div_mod::lemma_small_mod(0, m.layout.window_len as nat);
            vstd::arithmetic::div_mod::lemma_div_basics_1(m.layout.window_len);
            let d = max_seq - kv.sink;
            if d > 0 {
                crate::math::lemma_ceil_div(d, kv.window as int);
                assert(d <= m.num_blocks_total * kv.window);
            } else {
                assert(0 <= m.num_blocks_total * kv.window) by (nonlinear_arith)
                    requires
                        1 <= m.num_blocks_total,
                        0 <= kv.window,
                ;
            }
        },
        _ => {},
    }
}

/// Whether every size of a pass fits.
pub fn check_sizes_fit(cfg: &Qwen35Config, ctx: usize) -> (r: bool)
    requires
        plane_fits(cfg@.head_count_kv, max_seq_for(cfg@, ctx), cfg@.head_dim),
    ensures
        r == sizes_fit(cfg@, max_seq_for(cfg@, ctx), CHUNK_CAP as int),
{
    let max_seq: u32 = max_seq_of(cfg, ctx);
    check_dims_fit(cfg, CHUNK_CAP) && cfg.head_dim <= u32::MAX / 2 && cfg.gdn.key_dim as u64
        <= usize::MAX as u64 / 2 && max_seq <= u32::MAX - CHUNK_CAP
}

/// A model is consistent: its layers' caches and its rewind points belong to
/// it, during a pass every cache is where the pass has it, and a pass that
/// waits for a router has begun.
pub proof fn law_model_is_valid(m: &Model)
    requires
        m.wf(),
    ensures
        m@.valid(),
        m@.begun is None ==> m@.pending is None,
{
}

impl Model {
    /// Weights, caches and configuration belong together, and every rewind
    /// point can be used.
    pub closed spec fn wf(&self) -> bool {
        &&& self@.valid()
        &&& cache_ready(self.expert_cache, 0)
    }

    /// A model of these parts, before its first token.
    pub fn new(
        config: Qwen35Config,
        layers: Vec<LayerWeights>,
        ctx: usize,
        kv: KvOptions,
        expert_cache: Option<ExpertCache>,
    ) -> (r: Result<Self, ConfigError>)
        requires
            cache_fits(config@, ctx, kv),
            sizes_fit(config@, max_seq_for(config@, ctx), CHUNK_CAP as int),
            config@.layer_kinds.len() <= u32::MAX,
            config@.moe matches Some(m) ==> m.expert_used_count >= 1,
            expert_cache matches Some(c) ==> c.wf(),
        ensures
            match r {
                Err(e) => parts_error(config@, layers@) == Some(e),
                Ok(m) => {
                    &&& parts_error(config@, layers@) is None
                    &&& m.wf()
                    &&& m@.settled()
                    &&& m@ == fresh_model(
                        config@,
                        layers@,
                        ctx,
                        kv,
                        cache_model(expert_cache),
                    )
                },
            },
    {
        let n: usize = config.layer_kinds.len();
        if layers.len() != n {
            let layer: usize = if layers.len() < n {
                layers.len()
            } else {
                n
            };
            return Err(ConfigError::WeightKindMismatch { layer });
        }
        let routes: bool = match &config.moe {
            None => false,
            Some(_) => true,
        };
        let mut i: usize = 0;
        while i < n
            invariant
                i <= n,
                n == layers@.len(),
                n == config.layer_kinds@.len(),
                routes == (config@.moe is Some),
                layers_error(config@, layers@, 0) == layers_error(config@, layers@, i as int),
                forall|j: int|
                    0 <= j < i ==> (#[trigger] layers@[j]).is_kind(config@.layer_kinds[j]) && (
                    layers@[j].spec_ffn() is Moe ==> config@.moe is Some),
            decreases n - i,
        {
            let is_kind: bool = match (&layers[i], config.layer_kinds[i]) {
                (LayerWeights::Gdn(_), LayerKind::LinearAttention) => true,
                (LayerWeights::Attention(_), LayerKind::FullAttention) => true,
                _ => false,
            };
            if !is_kind {
                return Err(ConfigError::WeightKindMismatch { layer: i });
            }
            let is_moe: bool = match layers[i].ffn() {
                Ffn::Moe(_) => true,
                Ffn::Dense(_) => false,
            };
            if is_moe && !routes {
                return Err(ConfigError::MoeNoConfig);
            }
            i = i + 1;
        }
        let cache = HybridCache::new(&config, ctx, &kv);
        let ghost c = config@;
        let m = Model {
            config,
            layers,
            cache,
            rewind: RewindPoints::new(),
            expert_cache,
            pos: 0,
            begun: None,
            pending: None,
        };
        proof {
            assert forall|j: int| 0 <= j < m@.cache.attn.len() implies layer_at(
                c,
                #[trigger] m@.cache.attn[j],
                m@.cache.max_seq,
                m@.layer_pos(j),
            ) by {
                lemma_empty_layer_at(c, ctx, kv, j);
            }
            assert forall|j: int| 0 <= j < m@.layers.len() implies layer_fits(
                c,
                m@.cache,
                #[trigger] m@.layers[j],
                j,
            ) by {
                assert(m@.layers[j].is_kind(c.layer_kinds[j]));
            }
        }
        Ok(m)
    }

    /// The configuration.
    pub fn config(&self) -> (r: &Qwen35Config)
        ensures
            r@ == self@.config,
    {
        &self.config
    }

    /// Tokens processed so far.
    pub fn position(&self) -> (r: u32)
        ensures
            r == self@.pos,
    {
        self.pos
    }

    /// The longest sequence the model takes.
    pub fn max_seq(&self) -> (r: u32)
        ensures
            r == self@.cache.max_seq,
    {
        self.cache.max_seq()
    }

    /// Whether every layer's cache is where the position has it, so that a
    /// pass can begin. A reset settles a model that is not.
    pub fn is_settled(&self) -> (r: bool)
        requires
            self.wf(),
        ensures
            r == self@.settled(),
    {
        if self.begun.is_some() {
            return true;
        }
        let r: bool = self.cache.windows_are_at(self.pos);
        proof {
            let s = self@;
            if r {
                assert forall|i: int| 0 <= i < s.cache.attn.len() implies layer_at(
                    s.config,
                    #[trigger] s.cache.attn[i],
                    s.cache.max_seq,
                    s.layer_pos(i),
                ) by {
                    assert(layer_ok(s.config, s.cache.attn[i], s.cache.max_seq));
                }
            } else {
                let i = choose|i: int|
                    0 <= i < s.cache.attn.len() && !((#[trigger] s.cache.attn[i]) matches Some(
                        AttnCacheModel::Mixed(p),
                    ) ==> p.layout.is_next(self.pos as int));
                assert(!layer_at(s.config, s.cache.attn[i], s.cache.max_seq, s.layer_pos(i)));
            }
        }
        r
    }

    /// Whether a pass has begun that was neither finished nor given up.
    pub fn pass_begun(&self) -> (r: bool)
        ensures
            r == (self@.begun is Some),
    {
        self.begun.is_some()
    }

    /// The pass that waits for a router's choice, if one does.
    pub fn pending(&self) -> (r: Option<Pending>)
        ensures
            r == self@.pending,
    {
        self.pending
    }

    /// Hits, misses, cached experts and slots of the expert cache.
    pub fn moe_cache_stats(&self) -> (r: Option<(u64, u64, usize, usize)>)
        ensures
            match (self@.experts, r) {
                (None, None) => true,
                (Some(c), Some((hits, misses, occupancy, capacity))) => {
                    &&& hits == c.hits
                    &&& misses == c.misses
                    &&& occupancy == c.lru.entries.len()
                    &&& capacity == c.lru.capacity
                },
                _ => false,
            },
    {
        match &self.expert_cache {
            None => None,
            Some(c) => {
                let (hits, misses): (u64, u64) = c.stats();
                Some((hits, misses, c.occupancy(), c.capacity()))
            },
        }
    }
}

} // verus!
