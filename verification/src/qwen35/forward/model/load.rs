//! What is decided when a model is loaded: how its key/value cache is split
//! between dense and quantized layers, whether the options make sense, and
//! how many routed experts stay on the device.

use super::{check_sizes_fit, fresh_model, layers_error, parts_error, Model, CHUNK_CAP};
use crate::error::{ConfigError, ErrorModel, RocmlError};
use crate::load_opts::{KvCacheMode, KvDtype, LoadOptions};
use crate::qwen35::cache::hybrid::{
    cache_fits, check_cache_fits, empty_attn, empty_cache, is_boundary, is_mixed, max_seq_for,
    AttnCacheModel, KvOptions,
};
use crate::qwen35::cache::mixed::RotSimSpec;
use crate::qwen35::config::{ConfigModel, LayerKind, Qwen35Config};
use crate::qwen35::forward::layer::sizes_fit;
use crate::qwen35::forward::moe::cache_model;
use crate::qwen35::model_weights::{layer_of, LayerTensors};
use crate::qwen35::moe::expert_cache::{
    cache_capacity, law_cache_fits_free_memory, slots_for, CacheModel, ExpertCache,
};
use crate::qwen35::moe::expert_lru::LruModel;
use crate::qwen35::moe::tensor::{
    count_routing, per_tensor_max_bytes, routing_layers, stride_maxima, total_distinct_experts, MoeFfnWeights,
};
use crate::qwen35::weights::{Ffn, LayerWeights};
use vstd::prelude::*;

verus! {

/// Widest window the kernels can launch.
pub const MAX_WINDOW: u32 = 65535;

/// Full-attention layers among the first `n`.
pub open spec fn attn_layers(kinds: Seq<LayerKind>, n: nat) -> nat
    decreases n,
{
    if n == 0 {
        0
    } else {
        attn_layers(kinds, (n - 1) as nat) + if kinds[n - 1] == LayerKind::FullAttention {
            1nat
        } else {
            0nat
        }
    }
}

/// How the full-attention layers of a model store their keys and values.
#[derive(Debug, Clone, Copy, PartialEq, Eq, Structural)]
pub struct LayerCounts {
    pub attn: u32,
    /// First and last full-attention layer, always dense.
    pub boundary: u32,
    /// Layers with a quantized bulk region.
    pub mixed: u32,
}

/// How many layers are of which sort.
pub open spec fn counts_for(kinds: Seq<LayerKind>, mode: KvCacheMode) -> LayerCounts {
    let n = attn_layers(kinds, kinds.len());
    let boundary = if n < 2 {
        n
    } else {
        2
    };
    LayerCounts {
        attn: n as u32,
        boundary: boundary as u32,
        mixed: if mode == KvCacheMode::Fp16 {
            0
        } else {
            (n - boundary) as u32
        },
    }
}

/// Layers with the mixed cache among the first `n`.
pub open spec fn mixed_layers(attn: Seq<Option<AttnCacheModel>>, n: nat) -> nat
    decreases n,
{
    if n == 0 {
        0
    } else {
        mixed_layers(attn, (n - 1) as nat) + if is_mixed(attn[n - 1]) {
            1nat
        } else {
            0nat
        }
    }
}

proof fn lemma_attn_layers(kinds: Seq<LayerKind>, a: nat, b: nat)
    requires
        a <= b <= kinds.len(),
    ensures
        attn_layers(kinds, a) <= attn_layers(kinds, b),
        attn_layers(kinds, a) == attn_layers(kinds, b) <==> forall|j: int|
            a <= j < b ==> #[trigger] kinds[j] != LayerKind::FullAttention,
        attn_layers(kinds, b) <= b,
    decreases b,
{
    if b > 0 {
        let c: nat = (b - 1) as nat;
        if a < b {
            lemma_attn_layers(kinds, a, c);
            if kinds[c as int] == LayerKind::FullAttention {
                assert(!(forall|j: int|
                    a <= j < b ==> #[trigger] kinds[j] != LayerKind::FullAttention));
            }
        } else {
            lemma_attn_layers(kinds, c, c);
        }
    }
}

proof fn lemma_mixed_layers(cfg: ConfigModel, ctx: usize, kv: KvOptions, n: nat)
    requires
        n <= cfg.layer_kinds.len(),
        kv.mode != KvCacheMode::Fp16,
    ensures
        ({
            let f = attn_layers(cfg.layer_kinds, n);
            let total = attn_layers(cfg.layer_kinds, cfg.layer_kinds.len());
            mixed_layers(empty_cache(cfg, ctx, kv).attn, n) == if f == 0 {
                0
            } else if f < total {
                f - 1
            } else if f >= 2 {
                f - 2
            } else {
                0
            }
        }),
    decreases n,
{
    if n > 0 {
        let kinds = cfg.layer_kinds;
        let c: nat = (n - 1) as nat;
        let i = n - 1;
        let all = kinds.len();
        lemma_mixed_layers(cfg, ctx, kv, c);
        lemma_attn_layers(kinds, 0, c);
        lemma_attn_layers(kinds, n, all);
        lemma_attn_layers(kinds, c, all);
        assert(empty_cache(cfg, ctx, kv).attn[i] == empty_attn(
            cfg,
            max_seq_for(cfg, ctx),
            kv,
            i,
        ));
        if kinds[i] == LayerKind::FullAttention {
            assert(is_boundary(kinds, i) <==> attn_layers(kinds, c) == 0 || attn_layers(kinds, n)
                == attn_layers(kinds, all));
        }
    }
}

/// The layers that memory is set aside for are the layers the cache makes:
/// as many of them are mixed as were counted.
pub proof fn law_counted_layers_are_the_ones_made(cfg: ConfigModel, ctx: usize, kv: KvOptions)
    requires
        cfg.layer_kinds.len() <= u32::MAX,
    ensures
        mixed_layers(empty_cache(cfg, ctx, kv).attn, cfg.layer_kinds.len()) == counts_for(
            cfg.layer_kinds,
            kv.mode,
        ).mixed,
{
    let all = cfg.layer_kinds.len();
    lemma_attn_layers(cfg.layer_kinds, 0, all);
    if kv.mode == KvCacheMode::Fp16 {
        lemma_none_mixed(cfg, ctx, kv, all);
    } else {
        lemma_mixed_layers(cfg, ctx, kv, all);
    }
}

proof fn lemma_none_mixed(cfg: ConfigModel, ctx: usize, kv: KvOptions, n: nat)
    requires
        n <= cfg.layer_kinds.len(),
        kv.mode == KvCacheMode::Fp16,
    ensures
        mixed_layers(empty_cache(cfg, ctx, kv).attn, n) == 0,
    decreases n,
{
    if n > 0 {
        lemma_none_mixed(cfg, ctx, kv, (n - 1) as nat);
    }
}

proof fn lemma_loaded_layers(
    c: ConfigModel,
    t: Seq<LayerTensors>,
    layers: Seq<LayerWeights>,
    i: int,
)
    requires
        0 <= i,
        t.len() == layers.len(),
        forall|j: int|
            0 <= j < layers.len() ==> layer_of(c, c.layer_kinds[j], t[j]) == Ok::<
                LayerWeights,
                ConfigError,
            >(#[trigger] layers[j]),
    ensures
        layers_error(c, layers, i) is None,
    decreases layers.len() - i,
{
    if i < layers.len() {
        assert(layer_of(c, c.layer_kinds[i], t[i]) == Ok::<LayerWeights, ConfigError>(layers[i]));
        lemma_loaded_layers(c, t, layers, i + 1);
    }
}

/// Weights that were loaded for a configuration make a model of it.
pub proof fn law_loaded_weights_make_a_model(
    c: ConfigModel,
    t: Seq<LayerTensors>,
    layers: Seq<LayerWeights>,
)
    requires
        t.len() == c.layer_kinds.len(),
        layers.len() == t.len(),
        forall|j: int|
            0 <= j < layers.len() ==> layer_of(c, c.layer_kinds[j], t[j]) == Ok::<
                LayerWeights,
                ConfigError,
            >(#[trigger] layers[j]),
    ensures
        parts_error(c, layers) is None,
{
    lemma_loaded_layers(c, t, layers, 0);
}

/// Whether a sink and a window make sense for a sequence that long.
pub open spec fn sink_window_ok(sink: u32, window: u32, ctx: usize) -> bool {
    &&& 1 <= sink
    &&& 1 <= window <= MAX_WINDOW
    &&& sink + window < ctx
}

/// Checks the sink and the window of a quantized cache.
pub fn validate_sink_window(sink: u32, window: u32, ctx: usize) -> (r: Result<(), ConfigError>)
    ensures
        match r {
            Ok(_) => sink_window_ok(sink, window, ctx),
            Err(e) => !sink_window_ok(sink, window, ctx) && e == (ConfigError::SinkWindow {
                sink,
                window,
                ctx,
            }),
        },
{
    if sink >= 1 && 1 <= window && window <= MAX_WINDOW && (sink as u64 + window as u64)
        < ctx as u64 {
        Ok(())
    } else {
        Err(ConfigError::SinkWindow { sink, window, ctx })
    }
}

/// Everything that is decided before memory is looked at.
#[derive(Debug, Clone, Copy, PartialEq, Eq, Structural)]
pub struct LoadPlan {
    pub counts: LayerCounts,
    pub v_bits: u8,
    pub ctx: usize,
    pub kv: KvOptions,
}

/// The cache options that load options ask for.
pub open spec fn kv_options(o: LoadOptions) -> KvOptions {
    KvOptions {
        mode: o.kv_cache,
        sink: o.kv_sink,
        window: o.kv_window,
        rot_sim: match o.kv_rot_sim {
            Some(bpw) => Some(RotSimSpec { bpw, apply_to_k: o.kv_rot_sim_k }),
            None => None,
        },
    }
}

/// What is decided before memory is looked at.
pub open spec fn plan_for(c: ConfigModel, o: LoadOptions) -> LoadPlan {
    LoadPlan {
        counts: counts_for(c.layer_kinds, o.kv_cache),
        v_bits: if o.kv_cache == KvCacheMode::Q4Mixed {
            4
        } else {
            8
        },
        ctx: max_seq_for(c, o.ctx) as usize,
        kv: kv_options(o),
    }
}

/// Why the options are refused, if they are.
pub open spec fn plan_error(c: ConfigModel, o: LoadOptions) -> Option<ConfigError> {
    let ctx = max_seq_for(c, o.ctx) as usize;
    if o.kv_cache != KvCacheMode::Fp16 && !sink_window_ok(o.kv_sink, o.kv_window, ctx) {
        Some(ConfigError::SinkWindow { sink: o.kv_sink, window: o.kv_window, ctx })
    } else {
        None
    }
}

impl LoadPlan {
    /// Decides what can be decided before memory is looked at.
    pub fn new(config: &Qwen35Config, opts: &LoadOptions) -> (r: Result<Self, ConfigError>)
        requires
            config@.layer_kinds.len() <= u32::MAX,
        ensures
            match r {
                Err(e) => plan_error(config@, *opts) == Some(e),
                Ok(p) => plan_error(config@, *opts) is None && p == plan_for(config@, *opts),
            },
    {
        let ghost kinds = config@.layer_kinds;
        let n: usize = config.layer_kinds.len();
        let mut attn: u32 = 0;
        let mut i: usize = 0;
        while i < n
            invariant
                i <= n,
                n == kinds.len(),
                kinds == config.layer_kinds@,
                n <= u32::MAX,
                attn == attn_layers(kinds, i as nat),
                attn <= i,
            decreases n - i,
        {
            if config.layer_kinds[i] == LayerKind::FullAttention {
                attn = attn + 1;
            }
            i = i + 1;
        }
        let boundary: u32 = if attn < 2 {
            attn
        } else {
            2
        };
        let quantized: bool = opts.kv_cache.is_quantized();
        let ctx: usize = crate::qwen35::cache::hybrid::max_seq_of(config, opts.ctx) as usize;
        if quantized {
            match validate_sink_window(opts.kv_sink, opts.kv_window, ctx) {
                Ok(_) => {},
                Err(e) => {
                    return Err(e);
                },
            }
        }
        let mixed: u32 = if quantized {
            attn - boundary
        } else {
            0
        };
        let rot_sim = match opts.kv_rot_sim {
            Some(bpw) => Some(RotSimSpec { bpw, apply_to_k: opts.kv_rot_sim_k }),
            None => None,
        };
        Ok(
            LoadPlan {
                counts: LayerCounts { attn, boundary, mixed },
                v_bits: opts.kv_cache.v_bits(),
                ctx,
                kv: KvOptions {
                    mode: opts.kv_cache,
                    sink: opts.kv_sink,
                    window: opts.kv_window,
                    rot_sim,
                },
            },
        )
    }
}

/// What an estimate of the device's memory says about a sequence length.
#[derive(Debug)]
pub struct BudgetReport {
    pub fits: bool,
    pub suggested_max_ctx: usize,
    pub breakdown: String,
}

/// A layer's routed experts, if it has any.
pub open spec fn routed_of(w: LayerWeights) -> Option<MoeFfnWeights> {
    match w.spec_ffn() {
        Ffn::Moe(m) => Some(m),
        Ffn::Dense(_) => None,
    }
}

/// Every layer's routed experts.
pub open spec fn routed_layers(layers: Seq<LayerWeights>) -> Seq<Option<MoeFfnWeights>> {
    layers.map_values(|w: LayerWeights| routed_of(w))
}

/// Slots of the expert cache, given the memory that is left.
pub open spec fn expert_slots(
    layers: Seq<LayerWeights>,
    expert_count: u32,
    limit: Option<usize>,
    free: usize,
) -> nat {
    let (g, u, d) = stride_maxima(routed_layers(layers));
    slots_for(
        free as nat,
        g + u + d,
        routing_layers(routed_layers(layers)) * expert_count as nat,
        limit,
    )
}

/// Whether the sizes of the expert cache fit a machine word.
pub open spec fn experts_fit(
    layers: Seq<LayerWeights>,
    expert_count: u32,
    limit: Option<usize>,
    free: usize,
) -> bool {
    let (g, u, d) = stride_maxima(routed_layers(layers));
    &&& g + u + d <= usize::MAX
    &&& routing_layers(routed_layers(layers)) * expert_count <= usize::MAX
    &&& expert_slots(layers, expert_count, limit, free) <= usize::MAX / 256
}

/// The expert cache of a model with this much memory left: none without
/// slots.
pub open spec fn experts_for(
    layers: Seq<LayerWeights>,
    expert_count: u32,
    limit: Option<usize>,
    free: usize,
    overlap: bool,
) -> Option<CacheModel> {
    let (g, u, d) = stride_maxima(routed_layers(layers));
    let n = expert_slots(layers, expert_count, limit, free);
    if n == 0 {
        None
    } else {
        Some(
            CacheModel {
                lru: LruModel { capacity: n, entries: Seq::empty() },
                gate_stride: g,
                up_stride: u,
                down_stride: d,
                hits: 0,
                misses: 0,
                overlap,
            },
        )
    }
}

fn collect_routed(layers: &Vec<LayerWeights>) -> (r: Vec<Option<MoeFfnWeights>>)
    ensures
        r@ == routed_layers(layers@),
{
    let mut out: Vec<Option<MoeFfnWeights>> = Vec::new();
    let mut i: usize = 0;
    while i < layers.len()
        invariant
            i <= layers@.len(),
            out@.len() == i,
            forall|j: int| 0 <= j < i ==> #[trigger] out@[j] == routed_of(layers@[j]),
        decreases layers@.len() - i,
    {
        match layers[i].ffn() {
            Ffn::Moe(m) => out.push(Some(m)),
            Ffn::Dense(_) => out.push(None),
        }
        i = i + 1;
    }
    proof {
        assert(out@ =~= routed_layers(layers@));
    }
    out
}

proof fn lemma_pools_fit(n: nat, a: nat, b: nat)
    requires
        n * b <= usize::MAX,
        a <= b,
    ensures
        n * a <= usize::MAX,
{
    assert(n * a <= n * b) by (nonlinear_arith)
        requires
            a <= b,
    ;
}

/// The expert cache of a model with this much memory left. Sizes that do not
/// fit a machine word are refused.
pub fn size_expert_cache(
    layers: &Vec<LayerWeights>,
    expert_count: u32,
    limit: Option<usize>,
    free: usize,
    overlap: bool,
) -> (r: Result<Option<ExpertCache>, ConfigError>)
    requires
        layers@.len() <= u32::MAX,
    ensures
        match r {
            Err(e) => {
                &&& e == ConfigError::SizeOverflow
                &&& !experts_fit(layers@, expert_count, limit, free)
            },
            Ok(c) => {
                &&& experts_fit(layers@, expert_count, limit, free)
                &&& c matches Some(c) ==> c.wf()
                &&& cache_model(c) == experts_for(layers@, expert_count, limit, free, overlap)
            },
        },
{
    let routed = collect_routed(layers);
    let (g, u, d): (usize, usize, usize) = per_tensor_max_bytes(routed.as_slice());
    let sum: u128 = g as u128 + u as u128 + d as u128;
    if sum > usize::MAX as u128 {
        return Err(ConfigError::SizeOverflow);
    }
    let bytes_per_slot: usize = sum as usize;
    let routing: usize = count_routing(routed.as_slice());
    proof {
        assert(routing * expert_count <= 0xffff_ffff * 0xffff_ffff) by (nonlinear_arith)
            requires
                0 <= routing <= 0xffff_ffff,
                0 <= expert_count <= 0xffff_ffff,
        ;
    }
    if routing as u64 * expert_count as u64 > usize::MAX as u64 {
        return Err(ConfigError::SizeOverflow);
    }
    let total: usize = total_distinct_experts(routed.as_slice(), expert_count);
    let capacity: usize = cache_capacity(free, bytes_per_slot, total, limit);
    if capacity > usize::MAX / 256 {
        return Err(ConfigError::SizeOverflow);
    }
    proof {
        law_cache_fits_free_memory(free as nat, bytes_per_slot as nat, total as nat, limit);
        assert(capacity == 0 ==> capacity * bytes_per_slot == 0) by (nonlinear_arith);
        lemma_pools_fit(capacity as nat, g as nat, bytes_per_slot as nat);
        lemma_pools_fit(capacity as nat, u as nat, bytes_per_slot as nat);
        lemma_pools_fit(capacity as nat, d as nat, bytes_per_slot as nat);
    }
    Ok(ExpertCache::new(capacity, g, u, d, overlap))
}

/// Whether every size of the model fits a machine word.
pub open spec fn model_fits(
    c: ConfigModel,
    layers: Seq<LayerWeights>,
    o: LoadOptions,
    free: usize,
) -> bool {
    &&& c.layer_kinds.len() <= u32::MAX
    &&& layers.len() <= u32::MAX
    &&& cache_fits(c, o.ctx, kv_options(o))
    &&& sizes_fit(c, max_seq_for(c, o.ctx), CHUNK_CAP as int)
    &&& c.moe matches Some(m) ==> experts_fit(layers, m.expert_count, o.moe_cache_slots, free)
}

/// Why a model is not loaded, if it is not: bad options, then too little
/// memory, then sizes that cannot be addressed, then parts that do not belong
/// together.
pub open spec fn load_error(
    c: ConfigModel,
    layers: Seq<LayerWeights>,
    o: LoadOptions,
    budget: BudgetReport,
    free: usize,
) -> Option<ErrorModel> {
    if c.layer_kinds.len() > u32::MAX {
        Some(ErrorModel::Config(ConfigError::SizeOverflow))
    } else if plan_error(c, o) is Some {
        Some(ErrorModel::Config(plan_error(c, o)->0))
    } else if !budget.fits {
        Some(
            ErrorModel::VramBudget {
                requested_ctx: max_seq_for(c, o.ctx) as usize,
                suggested_max_ctx: budget.suggested_max_ctx,
                breakdown: budget.breakdown@,
            },
        )
    } else if !model_fits(c, layers, o, free) {
        Some(ErrorModel::Config(ConfigError::SizeOverflow))
    } else {
        match parts_error(c, layers) {
            Some(e) => Some(ErrorModel::Config(e)),
            None => None,
        }
    }
}

/// A freshly loaded model.
pub open spec fn loaded_model(
    c: ConfigModel,
    layers: Seq<LayerWeights>,
    o: LoadOptions,
    free: usize,
) -> super::ModelState {
    fresh_model(
        c,
        layers,
        o.ctx,
        kv_options(o),
        match c.moe {
            Some(m) => experts_for(
                layers,
                m.expert_count,
                o.moe_cache_slots,
                free,
                o.moe_overlap,
            ),
            None => None,
        },
    )
}

/// A full-attention layer with another before it and another after it.
pub open spec fn is_inner(kinds: Seq<LayerKind>, i: int) -> bool {
    &&& exists|j: int| 0 <= j < i && #[trigger] kinds[j] == LayerKind::FullAttention
    &&& exists|j: int| i < j < kinds.len() && #[trigger] kinds[j] == LayerKind::FullAttention
}

/// A loaded model is at the start of a sequence, with room for what was asked
/// for as far as the model goes; and every layer has the state of its kind.
/// A quantized cache covers the full-attention layers between the first and
/// the last, with the sink, the window and the widths that were asked for;
/// every other one is dense, in half precision.
pub proof fn law_loaded_model_is_what_was_asked_for(
    c: ConfigModel,
    layers: Seq<LayerWeights>,
    o: LoadOptions,
    free: usize,
    i: int,
)
    requires
        0 <= i < c.layer_kinds.len(),
    ensures
        ({
            let s = loaded_model(c, layers, o, free);
            let quantized = o.kv_cache == KvCacheMode::Q8 || o.kv_cache == KvCacheMode::Q4Mixed;
            &&& s.config == c
            &&& s.layers == layers
            &&& s.pos == 0
            &&& s.begun is None
            &&& s.pending is None
            &&& s.points.stable_boundary is None
            &&& s.points.end_of_turn is None
            &&& 1 <= s.cache.max_seq
            &&& s.cache.max_seq == 1 || s.cache.max_seq <= o.ctx && s.cache.max_seq
                <= c.context_length
            &&& s.cache.max_seq == 1 || s.cache.max_seq == o.ctx || s.cache.max_seq
                == c.context_length
            &&& 1 <= o.ctx <= c.context_length ==> s.cache.max_seq == o.ctx
            &&& s.cache.gdn[i] is Some <==> c.layer_kinds[i] == LayerKind::LinearAttention
            &&& s.cache.attn[i] is Some <==> c.layer_kinds[i] == LayerKind::FullAttention
            &&& s.cache.attn[i] matches Some(a) ==> match a {
                AttnCacheModel::Dense(dtype) => dtype == KvDtype::F16 && !(quantized && is_inner(
                    c.layer_kinds,
                    i,
                )),
                AttnCacheModel::Mixed(m) => {
                    &&& quantized && is_inner(c.layer_kinds, i)
                    &&& m.layout.sink_len == o.kv_sink
                    &&& m.layout.window_len == o.kv_window
                    &&& m.layout.window_base == o.kv_sink
                    &&& m.n_kv_heads == c.head_count_kv
                    &&& m.head_dim == c.head_dim
                    &&& m.v_bits == 4 <==> o.kv_cache == KvCacheMode::Q4Mixed
                    &&& m.v_bits == 8 <==> o.kv_cache == KvCacheMode::Q8
                    &&& match m.rot_sim {
                        Some(r) => o.kv_rot_sim == Some(r.bpw) && r.apply_to_k == o.kv_rot_sim_k,
                        None => o.kv_rot_sim is None,
                    }
                },
            }
            &&& c.moe is None ==> s.experts is None
            &&& s.experts matches Some(e) ==> {
                &&& e.overlap == o.moe_overlap
                &&& 0 < e.lru.capacity
                &&& e.lru.entries.len() == 0
                &&& e.hits == 0 && e.misses == 0
                &&& o.moe_cache_slots matches Some(n) ==> e.lru.capacity <= n
            }
        }),
{
    assert(is_boundary(c.layer_kinds, i) <==> !is_inner(c.layer_kinds, i));
}

impl Model {
    /// Makes a model of what was read from a checkpoint. The budget was
    /// estimated for the plan's sequence length, and `free` is the memory
    /// left once everything else has been allocated.
    pub fn load(
        config: Qwen35Config,
        layers: Vec<LayerWeights>,
        opts: &LoadOptions,
        budget: BudgetReport,
        free: usize,
    ) -> (r: Result<Self, RocmlError>)
        requires
            config@.moe matches Some(m) ==> m.expert_used_count >= 1,
        ensures
            match r {
                Err(e) => load_error(config@, layers@, *opts, budget, free) == Some(e@),
                Ok(m) => {
                    &&& load_error(config@, layers@, *opts, budget, free) is None
                    &&& m.wf()
                    &&& m@ == loaded_model(config@, layers@, *opts, free)
                },
            },
    {
        if config.layer_kinds.len() as u64 > u32::MAX as u64 {
            return Err(RocmlError::Config(ConfigError::SizeOverflow));
        }
        let plan = match LoadPlan::new(&config, opts) {
            Ok(p) => p,
            Err(e) => {
                return Err(RocmlError::Config(e));
            },
        };
        if !budget.fits {
            return Err(
                RocmlError::VramBudget {
                    requested_ctx: plan.ctx,
                    suggested_max_ctx: budget.suggested_max_ctx,
                    breakdown: budget.breakdown,
                },
            );
        }
        if layers.len() as u64 > u32::MAX as u64 || !check_cache_fits(&config, opts.ctx, &plan.kv)
            || !check_sizes_fit(&config, opts.ctx) {
            return Err(RocmlError::Config(ConfigError::SizeOverflow));
        }
        let expert_cache = match &config.moe {
            None => None,
            Some(m) => match size_expert_cache(
                &layers,
                m.expert_count,
                opts.moe_cache_slots,
                free,
                opts.moe_overlap,
            ) {
                Ok(c) => c,
                Err(e) => {
                    return Err(RocmlError::Config(e));
                },
            },
        };
        match Model::new(config, layers, opts.ctx, plan.kv, expert_cache) {
            Ok(m) => Ok(m),
            Err(e) => Err(RocmlError::Config(e)),
        }
    }
}

} // verus!
