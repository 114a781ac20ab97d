//! A model's weights as a whole: which tensors are loaded, in which order,
//! and what every layer turns out to be made of.

use super::config::{ConfigModel, LayerKind, MoeConfig, Qwen35Config};
use super::moe::tensor::{
    expert_bytes_of, tensor_error, ExpertTensorMeta, MoeFfnWeights, StoredTensor,
};
use super::weights::{
    attn_layer_loads, attn_loads, gdn_layer_loads, gdn_loads, has_output_gate, layer_tensor,
    loads_view, model_level_loads, model_loads, output_gate, AttnLayerWeights, Ffn, FfnWeights,
    GdnLayerWeights, LayerWeights, LinearWeight, LoadModel, TensorLoad, TensorRole,
};
use crate::error::ConfigError;
use vstd::prelude::*;

verus! {

/// How a checkpoint stores a routed-expert tensor.
#[derive(Debug)]
pub struct StoredExperts {
    /// Dimensions, innermost first.
    pub shape: Vec<u64>,
    /// Elements of a block; zero for a type without blocks.
    pub block_elements: usize,
    pub block_bytes: usize,
    pub data_len: usize,
}

impl View for StoredExperts {
    type V = StoredTensor;

    open spec fn view(&self) -> StoredTensor {
        StoredTensor {
            shape: self.shape@,
            block_elements: self.block_elements as nat,
            block_bytes: self.block_bytes as nat,
            data_len: self.data_len as nat,
        }
    }
}

impl StoredExperts {
    /// An expert of that shape has a size that fits a machine word.
    pub open spec fn sizes_fit(&self, m: u32, n: u32) -> bool {
        &&& m * n <= usize::MAX
        &&& self.block_elements > 0 ==> expert_bytes_of(
            m as nat,
            n as nat,
            self.block_elements as nat,
            self.block_bytes as nat,
        ) <= usize::MAX
    }
}

/// How a checkpoint stores a layer's three routed-expert tensors.
#[derive(Debug)]
pub struct ExpertTensors {
    pub gate: StoredExperts,
    pub up: StoredExperts,
    pub down: StoredExperts,
}

/// What a stored tensor is once its shape has been checked.
pub open spec fn meta_of(t: StoredTensor, m: u32, n: u32) -> ExpertTensorMeta {
    ExpertTensorMeta {
        m,
        n,
        per_expert_bytes: expert_bytes_of(
            m as nat,
            n as nat,
            t.block_elements,
            t.block_bytes,
        ) as usize,
    }
}

/// What three stored tensors make: the first that is wrong decides.
pub open spec fn experts_of(
    t: ExpertTensors,
    m: MoeConfig,
    hidden: u32,
) -> Result<MoeFfnWeights, ConfigError> {
    let (ff, n) = (m.expert_ff_len, m.expert_count);
    match (
        tensor_error(t.gate@, ff, hidden, n),
        tensor_error(t.up@, ff, hidden, n),
        tensor_error(t.down@, hidden, ff, n),
    ) {
        (Some(e), _, _) => Err(e),
        (None, Some(e), _) => Err(e),
        (None, None, Some(e)) => Err(e),
        (None, None, None) => Ok(
            MoeFfnWeights {
                gate: meta_of(t.gate@, ff, hidden),
                up: meta_of(t.up@, ff, hidden),
                down: meta_of(t.down@, hidden, ff),
            },
        ),
    }
}

impl ExpertTensors {
    /// Every expert has a size that fits a machine word.
    pub open spec fn sizes_fit(&self, m: MoeConfig, hidden: u32) -> bool {
        &&& self.gate.sizes_fit(m.expert_ff_len, hidden)
        &&& self.up.sizes_fit(m.expert_ff_len, hidden)
        &&& self.down.sizes_fit(hidden, m.expert_ff_len)
    }
}

fn load_experts(t: &StoredExperts, m: u32, n: u32, count: u32) -> (r: Result<
    ExpertTensorMeta,
    ConfigError,
>)
    requires
        t.sizes_fit(m, n),
    ensures
        r == (match tensor_error(t@, m, n, count) {
            Some(e) => Err::<ExpertTensorMeta, ConfigError>(e),
            None => Ok::<ExpertTensorMeta, ConfigError>(meta_of(t@, m, n)),
        }),
{
    ExpertTensorMeta::load(
        t.shape.as_slice(),
        t.block_elements,
        t.block_bytes,
        t.data_len,
        m,
        n,
        count,
    )
}

impl MoeFfnWeights {
    /// Checks a layer's routed-expert tensors against the configuration.
    pub fn load(t: &ExpertTensors, cfg: &MoeConfig, hidden: u32) -> (r: Result<Self, ConfigError>)
        requires
            t.sizes_fit(*cfg, hidden),
        ensures
            r == experts_of(*t, *cfg, hidden),
    {
        let (ff, n): (u32, u32) = (cfg.expert_ff_len, cfg.expert_count);
        let gate = match load_experts(&t.gate, ff, hidden, n) {
            Ok(x) => x,
            Err(e) => {
                return Err(e);
            },
        };
        let up = match load_experts(&t.up, ff, hidden, n) {
            Ok(x) => x,
            Err(e) => {
                return Err(e);
            },
        };
        let down = match load_experts(&t.down, hidden, ff, n) {
            Ok(x) => x,
            Err(e) => {
                return Err(e);
            },
        };
        Ok(MoeFfnWeights { gate, up, down })
    }
}

/// What a checkpoint shows of a layer before anything of it is loaded.
#[derive(Debug)]
pub struct LayerTensors {
    /// Dimensions of the query projection, innermost first; of no matter to
    /// a linear-attention layer.
    pub query_shape: Vec<u64>,
    /// The routed experts of a mixture of experts.
    pub experts: Option<ExpertTensors>,
}

impl LayerTensors {
    /// A mixture of experts has its experts, of sizes that fit a machine
    /// word.
    pub open spec fn complete(&self, c: ConfigModel) -> bool {
        c.moe matches Some(m) ==> {
            &&& self.experts is Some
            &&& self.experts->0.sizes_fit(m, c.embedding_length)
        }
    }
}

/// The dense feed-forward part of a configuration.
pub open spec fn dense_ffn(c: ConfigModel) -> FfnWeights {
    let (hidden, ffn) = (c.embedding_length, c.feed_forward_length);
    FfnWeights {
        gate: LinearWeight { m: ffn, n: hidden },
        up: LinearWeight { m: ffn, n: hidden },
        down: LinearWeight { m: hidden, n: ffn },
    }
}

/// A layer's feed-forward part.
pub open spec fn ffn_of(c: ConfigModel, t: LayerTensors) -> Result<Ffn, ConfigError> {
    match c.moe {
        None => Ok(Ffn::Dense(dense_ffn(c))),
        Some(m) => match experts_of(t.experts->0, m, c.embedding_length) {
            Ok(w) => Ok(Ffn::Moe(w)),
            Err(e) => Err(e),
        },
    }
}

/// What a layer is made of: its kind decides how its attention part is read,
/// and that part is read before the feed-forward part.
pub open spec fn layer_of(c: ConfigModel, kind: LayerKind, t: LayerTensors) -> Result<
    LayerWeights,
    ConfigError,
> {
    match kind {
        LayerKind::LinearAttention => match ffn_of(c, t) {
            Err(e) => Err(e),
            Ok(ffn) => Ok(LayerWeights::Gdn(GdnLayerWeights { ffn })),
        },
        LayerKind::FullAttention => match output_gate(
            t.query_shape@,
            c.head_count * c.head_dim,
        ) {
            Err(e) => Err(e),
            Ok(has_output_gate) => match ffn_of(c, t) {
                Err(e) => Err(e),
                Ok(ffn) => Ok(LayerWeights::Attention(AttnLayerWeights { has_output_gate, ffn })),
            },
        },
    }
}

/// The tensors of a layer.
pub open spec fn layer_loads(c: ConfigModel, i: u32, w: LayerWeights) -> Seq<LoadModel> {
    match w {
        LayerWeights::Gdn(_) => gdn_loads(c, i),
        LayerWeights::Attention(a) => attn_loads(c, i, a.has_output_gate),
    }
}

/// The tensors of the first `n` layers.
pub open spec fn layers_loads(c: ConfigModel, layers: Seq<LayerWeights>, n: nat) -> Seq<LoadModel>
    decreases n,
{
    if n == 0 {
        Seq::empty()
    } else {
        layers_loads(c, layers, (n - 1) as nat) + layer_loads(c, (n - 1) as u32, layers[n - 1])
    }
}

/// The first layer's error, from `i` on, if there is one.
pub open spec fn weights_error(c: ConfigModel, t: Seq<LayerTensors>, i: int) -> Option<ConfigError>
    decreases t.len() - i,
{
    if i >= t.len() {
        None
    } else {
        match layer_of(c, c.layer_kinds[i], t[i]) {
            Err(e) => Some(e),
            Ok(_) => weights_error(c, t, i + 1),
        }
    }
}

/// The widths of the attention projections fit 32 bits.
pub open spec fn projections_fit(c: ConfigModel) -> bool {
    &&& 2 * (c.head_count * c.head_dim) <= u32::MAX
    &&& c.head_count_kv * c.head_dim <= u32::MAX
}

/// A layer is of the kind the configuration says, with a feed-forward part
/// of the kind the model has; and a full-attention layer's query projection
/// is loaded with as many rows as the checkpoint has, twice the heads' width
/// exactly if there is an output gate.
pub proof fn law_loaded_layer_is_what_is_stored(
    c: ConfigModel,
    kind: LayerKind,
    t: LayerTensors,
    i: u32,
)
    requires
        layer_of(c, kind, t) is Ok,
        projections_fit(c),
        0 < c.head_count * c.head_dim,
    ensures
        ({
            let w = layer_of(c, kind, t)->Ok_0;
            let loads = layer_loads(c, i, w);
            &&& w is Gdn <==> kind == LayerKind::LinearAttention
            &&& w is Attention <==> kind == LayerKind::FullAttention
            &&& w.spec_ffn() is Moe <==> c.moe is Some
            &&& w matches LayerWeights::Attention(a) ==> {
                &&& t.query_shape@.len() >= 2
                &&& loads.contains(
                    (LoadModel {
                        name: layer_tensor(i, ".attn_q.weight"@),
                        role: TensorRole::Linear,
                        m: t.query_shape@[1] as u32,
                        n: c.embedding_length,
                    }),
                )
                &&& a.has_output_gate <==> t.query_shape@[1] == 2 * (c.head_count * c.head_dim)
            }
        }),
{
    let w = layer_of(c, kind, t)->Ok_0;
    if let LayerWeights::Attention(a) = w {
        let loads = attn_loads(c, i, a.has_output_gate);
        assert(loads[1].name == layer_tensor(i, ".attn_q.weight"@));
        assert(loads[1].m == t.query_shape@[1]);
        assert(loads.contains(loads[1]));
    }
}

/// Each of a mixture's three tensors is its own experts' bytes, in the shape
/// of its own projection.
pub proof fn law_loaded_experts_are_what_is_stored(t: ExpertTensors, m: MoeConfig, hidden: u32)
    requires
        experts_of(t, m, hidden) is Ok,
        m.expert_count > 0,
    ensures
        ({
            let w = experts_of(t, m, hidden)->Ok_0;
            let n = m.expert_count;
            &&& w.gate.per_expert_bytes * n == t.gate.data_len
            &&& w.up.per_expert_bytes * n == t.up.data_len
            &&& w.down.per_expert_bytes * n == t.down.data_len
            &&& (w.gate.m, w.gate.n) == (m.expert_ff_len, hidden)
            &&& (w.up.m, w.up.n) == (m.expert_ff_len, hidden)
            &&& (w.down.m, w.down.n) == (hidden, m.expert_ff_len)
            &&& t.gate.shape@ =~= seq![hidden as u64, m.expert_ff_len as u64, n as u64]
            &&& t.up.shape@ =~= seq![hidden as u64, m.expert_ff_len as u64, n as u64]
            &&& t.down.shape@ =~= seq![m.expert_ff_len as u64, hidden as u64, n as u64]
        }),
{
    let ff = m.expert_ff_len;
    lemma_each_fits(t.gate@, ff, hidden, m.expert_count);
    lemma_each_fits(t.up@, ff, hidden, m.expert_count);
    lemma_each_fits(t.down@, hidden, ff, m.expert_count);
}

proof fn lemma_each_fits(t: StoredTensor, m: u32, n: u32, experts: u32)
    requires
        tensor_error(t, m, n, experts) is None,
        experts > 0,
    ensures
        meta_of(t, m, n).per_expert_bytes * experts == t.data_len,
{
    let each = expert_bytes_of(m as nat, n as nat, t.block_elements, t.block_bytes);
    assert(each <= each * experts as nat) by (nonlinear_arith)
        requires
            experts > 0,
    ;
}

fn load_ffn(cfg: &Qwen35Config, t: &LayerTensors) -> (r: Result<Ffn, ConfigError>)
    requires
        t.complete(cfg@),
    ensures
        r == ffn_of(cfg@, *t),
{
    match (&cfg.moe, &t.experts) {
        (Some(m), Some(e)) => match MoeFfnWeights::load(e, m, cfg.embedding_length) {
            Ok(w) => Ok(Ffn::Moe(w)),
            Err(e) => Err(e),
        },
        _ => Ok(Ffn::Dense(FfnWeights::new(cfg.embedding_length, cfg.feed_forward_length))),
    }
}

impl LayerWeights {
    /// What a layer is made of, and the tensors to load for it.
    pub fn load(cfg: &Qwen35Config, layer_idx: u32, t: &LayerTensors) -> (r: Result<
        (Self, Vec<TensorLoad>),
        ConfigError,
    >)
        requires
            layer_idx < cfg@.layer_kinds.len(),
            projections_fit(cfg@),
            t.complete(cfg@),
        ensures
            match (layer_of(cfg@, cfg@.layer_kinds[layer_idx as int], *t), r) {
                (Err(e), Err(f)) => e == f,
                (Ok(w), Ok((v, loads))) => {
                    &&& v == w
                    &&& loads_view(loads@) == layer_loads(cfg@, layer_idx, w)
                },
                _ => false,
            },
    {
        match cfg.layer_kinds[layer_idx as usize] {
            LayerKind::LinearAttention => match load_ffn(cfg, t) {
                Err(e) => Err(e),
                Ok(ffn) => Ok(
                    (LayerWeights::Gdn(GdnLayerWeights { ffn }), gdn_layer_loads(cfg, layer_idx)),
                ),
            },
            LayerKind::FullAttention => {
                let has_output_gate = match has_output_gate(t.query_shape.as_slice(), cfg.q_dim()) {
                    Ok(b) => b,
                    Err(e) => {
                        return Err(e);
                    },
                };
                match load_ffn(cfg, t) {
                    Err(e) => Err(e),
                    Ok(ffn) => Ok(
                        (
                            LayerWeights::Attention(AttnLayerWeights { has_output_gate, ffn }),
                            attn_layer_loads(cfg, layer_idx, has_output_gate),
                        ),
                    ),
                }
            },
        }
    }
}

/// A model's layers, and every tensor to load for them.
#[derive(Debug)]
pub struct ModelWeights {
    pub layers: Vec<LayerWeights>,
    /// In the order of loading: the tensors outside the layers, then layer
    /// after layer.
    pub loads: Vec<TensorLoad>,
}

impl ModelWeights {
    /// What a checkpoint's layers make. `has_output` says whether the
    /// checkpoint has an output projection of its own.
    pub fn load(cfg: &Qwen35Config, has_output: bool, tensors: &Vec<LayerTensors>) -> (r: Result<
        Self,
        ConfigError,
    >)
        requires
            tensors@.len() == cfg@.layer_kinds.len(),
            tensors@.len() <= u32::MAX,
            projections_fit(cfg@),
            forall|i: int| 0 <= i < tensors@.len() ==> (#[trigger] tensors@[i]).complete(cfg@),
        ensures
            match r {
                Err(e) => weights_error(cfg@, tensors@, 0) == Some(e),
                Ok(w) => {
                    &&& weights_error(cfg@, tensors@, 0) is None
                    &&& w.layers@.len() == tensors@.len()
                    &&& forall|i: int|
                        0 <= i < w.layers@.len() ==> layer_of(
                            cfg@,
                            cfg@.layer_kinds[i],
                            tensors@[i],
                        ) == Ok::<LayerWeights, ConfigError>(#[trigger] w.layers@[i])
                    &&& loads_view(w.loads@) == model_loads(cfg@, has_output) + layers_loads(
                        cfg@,
                        w.layers@,
                        w.layers@.len(),
                    )
                },
            },
    {
        let ghost c = cfg@;
        let n: usize = tensors.len();
        let mut loads: Vec<TensorLoad> = model_level_loads(cfg, has_output);
        let mut layers: Vec<LayerWeights> = Vec::new();
        let mut i: usize = 0;
        proof {
            assert(loads_view(loads@) =~= model_loads(c, has_output) + layers_loads(
                c,
                layers@,
                0,
            ));
        }
        while i < n
            invariant
                i <= n,
                n == tensors@.len(),
                n == c.layer_kinds.len(),
                n <= u32::MAX,
                c == cfg@,
                projections_fit(c),
                forall|j: int| 0 <= j < n ==> (#[trigger] tensors@[j]).complete(c),
                layers@.len() == i,
                weights_error(c, tensors@, 0) == weights_error(c, tensors@, i as int),
                forall|j: int|
                    0 <= j < i ==> layer_of(c, c.layer_kinds[j], tensors@[j]) == Ok::<
                        LayerWeights,
                        ConfigError,
                    >(#[trigger] layers@[j]),
                loads_view(loads@) == model_loads(c, has_output) + layers_loads(
                    c,
                    layers@,
                    i as nat,
                ),
            decreases n - i,
        {
            let ghost held = layers@;
            let ghost listed = loads_view(loads@);
            let (w, mut own) = match LayerWeights::load(cfg, i as u32, &tensors[i]) {
                Ok(x) => x,
                Err(e) => {
                    return Err(e);
                },
            };
            let ghost added = loads_view(own@);
            let ghost (before, after) = (loads@, own@);
            loads.append(&mut own);
            layers.push(w);
            proof {
                assert(loads@ == before + after);
                assert(loads_view(loads@) =~= listed + added);
                lemma_same_layers(c, held, layers@, i as nat);
                assert(layers_loads(c, layers@, (i + 1) as nat) == layers_loads(c, held, i as nat)
                    + layer_loads(c, i as u32, w));
                assert(listed + added =~= model_loads(c, has_output) + layers_loads(
                    c,
                    layers@,
                    (i + 1) as nat,
                ));
            }
            i = i + 1;
        }
        Ok(ModelWeights { layers, loads })
    }
}

proof fn lemma_same_layers(c: ConfigModel, a: Seq<LayerWeights>, b: Seq<LayerWeights>, n: nat)
    requires
        n <= a.len(),
        n <= b.len(),
        forall|j: int| 0 <= j < n ==> #[trigger] a[j] == b[j],
    ensures
        layers_loads(c, a, n) == layers_loads(c, b, n),
    decreases n,
{
    if n > 0 {
        lemma_same_layers(c, a, b, (n - 1) as nat);
        assert(a[n - 1] == b[n - 1]);
    }
}

} // verus!
