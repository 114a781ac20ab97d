//! Model hyperparameters, derived from and checked against a checkpoint's
//! metadata. The metadata's key namespace follows the architecture string;
//! [`GgufMeta`] holds what each key gave.

use crate::error::{ConfigError, ErrorModel, MetaFault, MetaKey, RocmlError};
use crate::text::same_text;
use vstd::prelude::*;

verus! {

/// What kind of attention a layer has.
#[derive(Debug, Clone, Copy, PartialEq, Eq, Structural)]
pub enum LayerKind {
    LinearAttention,
    FullAttention,
}

/// Mixture-of-experts routing and sizing.
#[derive(Debug, Clone, Copy, PartialEq, Eq, Structural)]
pub struct MoeConfig {
    pub expert_count: u32,
    pub expert_used_count: u32,
    /// One routed expert's width.
    pub expert_ff_len: u32,
    /// The always-on shared expert's width.
    pub shared_ff_len: u32,
}

/// Dimensions of the linear-attention layers.
#[derive(Debug, Clone, Copy, PartialEq, Eq, Structural)]
pub struct GdnConfig {
    pub conv_kernel: u32,
    pub num_k_heads: u32,
    pub num_v_heads: u32,
    pub head_k_dim: u32,
    pub head_v_dim: u32,
    pub key_dim: u32,
    pub value_dim: u32,
    pub conv_dim: u32,
}

/// The hyperparameters. Floating-point values are bit patterns.
#[derive(Debug)]
pub struct Qwen35Config {
    /// Forward-pass layers only.
    pub block_count: u32,
    pub embedding_length: u32,
    pub feed_forward_length: u32,
    pub head_count: u32,
    pub head_count_kv: u32,
    /// Per-head query and key width; also the values'.
    pub head_dim: u32,
    pub rope_freq_base: u32,
    /// How many of a head's components are rotated.
    pub rope_dim_count: u32,
    pub rms_eps: u32,
    pub context_length: u32,
    pub vocab_size: u32,
    /// What each layer is.
    pub layer_kinds: Vec<LayerKind>,
    pub gdn: GdnConfig,
    /// Present when every layer's feed-forward part is a mixture of experts.
    pub moe: Option<MoeConfig>,
}

/// What a [`Qwen35Config`] holds.
#[verifier::ext_equal]
pub struct ConfigModel {
    pub block_count: u32,
    pub embedding_length: u32,
    pub feed_forward_length: u32,
    pub head_count: u32,
    pub head_count_kv: u32,
    pub head_dim: u32,
    pub rope_freq_base: u32,
    pub rope_dim_count: u32,
    pub rms_eps: u32,
    pub context_length: u32,
    pub vocab_size: u32,
    pub layer_kinds: Seq<LayerKind>,
    pub gdn: GdnConfig,
    pub moe: Option<MoeConfig>,
}

impl View for Qwen35Config {
    type V = ConfigModel;

    open spec fn view(&self) -> ConfigModel {
        ConfigModel {
            block_count: self.block_count,
            embedding_length: self.embedding_length,
            feed_forward_length: self.feed_forward_length,
            head_count: self.head_count,
            head_count_kv: self.head_count_kv,
            head_dim: self.head_dim,
            rope_freq_base: self.rope_freq_base,
            rope_dim_count: self.rope_dim_count,
            rms_eps: self.rms_eps,
            context_length: self.context_length,
            vocab_size: self.vocab_size,
            layer_kinds: self.layer_kinds@,
            gdn: self.gdn,
            moe: self.moe,
        }
    }
}

/// What a 32-bit key gave: an integer, or a floating-point bit pattern.
#[derive(Debug, Clone, Copy, PartialEq, Eq, Structural)]
pub enum Meta {
    Value(u32),
    Fault(MetaFault),
}

/// What the keys of a checkpoint gave.
#[derive(Debug)]
pub struct GgufMeta {
    pub architecture: Result<String, MetaFault>,
    pub nextn_predict_layers: Meta,
    pub block_count: Meta,
    pub embedding_length: Meta,
    pub head_count: Meta,
    pub head_count_kv: Meta,
    pub key_length: Meta,
    pub rope_freq_base: Meta,
    pub rope_dimension_count: Meta,
    pub layer_norm_rms_epsilon: Meta,
    pub context_length: Meta,
    pub expert_count: Meta,
    pub expert_used_count: Meta,
    pub expert_feed_forward_length: Meta,
    pub expert_shared_feed_forward_length: Meta,
    pub feed_forward_length: Meta,
    /// Dimensions of the embedding tensor, innermost first.
    pub token_embedding: Result<Vec<u64>, MetaFault>,
    pub ssm_conv_kernel: Meta,
    pub ssm_group_count: Meta,
    pub ssm_time_step_rank: Meta,
    pub ssm_inner_size: Meta,
    pub ssm_state_size: Meta,
    /// For each block, whether it has a state-space decay tensor.
    pub has_ssm_a: Vec<bool>,
}

/// A key's value; meaningless where it has none.
pub open spec fn val(m: Meta) -> u32 {
    m->Value_0
}

/// The error of the first of these keys that gave no value.
pub open spec fn first_fault(keys: Seq<(Meta, MetaKey)>) -> Option<ErrorModel>
    decreases keys.len(),
{
    if keys.len() == 0 {
        None
    } else {
        match keys[0].0 {
            Meta::Fault(fault) => Some(ErrorModel::Metadata { key: keys[0].1, fault }),
            Meta::Value(_) => first_fault(keys.drop_first()),
        }
    }
}

/// Number of forward-pass layers: the blocks less the trailing draft blocks.
pub open spec fn main_blocks(block_count: u32, nextn_layers: u32) -> Option<u32> {
    if nextn_layers < block_count {
        Some((block_count - nextn_layers) as u32)
    } else {
        None
    }
}

/// The forward-pass layers among `block_count` blocks, of which the last
/// `nextn_layers` only draft.
pub fn main_block_count(block_count: u32, nextn_layers: u32) -> (r: Result<u32, ConfigError>)
    ensures
        r == (match main_blocks(block_count, nextn_layers) {
            Some(n) => Ok::<u32, ConfigError>(n),
            None => Err::<u32, ConfigError>(
                ConfigError::NoForwardLayers { block_count, nextn_layers },
            ),
        }),
{
    if nextn_layers < block_count {
        Ok(block_count - nextn_layers)
    } else {
        Err(ConfigError::NoForwardLayers { block_count, nextn_layers })
    }
}

/// The draft-prediction count: zero when the key is missing.
pub open spec fn nextn(m: Meta) -> Meta {
    match m {
        Meta::Fault(MetaFault::Missing) => Meta::Value(0),
        _ => m,
    }
}

impl GgufMeta {
    /// Whether the checkpoint is a mixture-of-experts one.
    pub open spec fn is_moe(self) -> bool {
        self.architecture is Ok && self.architecture->Ok_0@ == "qwen35moe"@
    }

    /// The architecture is neither of the two this family has.
    pub open spec fn arch_error(self) -> Option<ErrorModel> {
        match self.architecture {
            Err(fault) => Some(ErrorModel::Metadata { key: MetaKey::Architecture, fault }),
            Ok(a) => if a@ == "qwen35"@ || a@ == "qwen35moe"@ {
                None
            } else {
                Some(ErrorModel::UnsupportedArchitecture { found: a@ })
            },
        }
    }

    /// The layer counts are unusable.
    pub open spec fn blocks_error(self) -> Option<ErrorModel> {
        let n = nextn(self.nextn_predict_layers);
        match first_fault(
            seq![(n, MetaKey::NextnPredictLayers), (self.block_count, MetaKey::BlockCount)],
        ) {
            Some(e) => Some(e),
            None => if main_blocks(val(self.block_count), val(n)) is None {
                Some(
                    ErrorModel::Config(
                        ConfigError::NoForwardLayers {
                            block_count: val(self.block_count),
                            nextn_layers: val(n),
                        },
                    ),
                )
            } else {
                None
            },
        }
    }

    /// A key every model needs gave no value.
    pub open spec fn dims_fault(self) -> Option<ErrorModel> {
        first_fault(
            seq![
                (self.embedding_length, MetaKey::EmbeddingLength),
                (self.head_count, MetaKey::HeadCount),
                (self.head_count_kv, MetaKey::HeadCountKv),
                (self.key_length, MetaKey::KeyLength),
                (self.rope_freq_base, MetaKey::RopeFreqBase),
                (self.rope_dimension_count, MetaKey::RopeDimensionCount),
                (self.layer_norm_rms_epsilon, MetaKey::LayerNormRmsEpsilon),
                (self.context_length, MetaKey::ContextLength),
            ],
        )
    }

    /// The feed-forward keys are unusable.
    pub open spec fn ffn_error(self) -> Option<ErrorModel> {
        if self.is_moe() {
            match first_fault(
                seq![
                    (self.expert_count, MetaKey::ExpertCount),
                    (self.expert_used_count, MetaKey::ExpertUsedCount),
                    (self.expert_feed_forward_length, MetaKey::ExpertFeedForwardLength),
                    (
                        self.expert_shared_feed_forward_length,
                        MetaKey::ExpertSharedFeedForwardLength,
                    ),
                ],
            ) {
                Some(e) => Some(e),
                None => if val(self.expert_count) == 0 || val(self.expert_feed_forward_length) == 0
                    || val(self.expert_shared_feed_forward_length) == 0 {
                    Some(ErrorModel::Config(ConfigError::ZeroExpertDims))
                } else if val(self.expert_used_count) == 0 || val(self.expert_used_count) > val(
                    self.expert_count,
                ) {
                    Some(
                        ErrorModel::Config(
                            ConfigError::BadExpertUsedCount {
                                used: val(self.expert_used_count),
                                count: val(self.expert_count),
                            },
                        ),
                    )
                } else {
                    None
                },
            }
        } else {
            first_fault(seq![(self.feed_forward_length, MetaKey::FeedForwardLength)])
        }
    }

    /// The vocabulary size cannot be had.
    pub open spec fn vocab_error(self) -> Option<ErrorModel> {
        match self.token_embedding {
            Err(fault) => Some(ErrorModel::Metadata { key: MetaKey::TokenEmbedding, fault }),
            Ok(shape) => if shape@.len() < 2 {
                Some(ErrorModel::Config(ConfigError::EmbeddingNotTwoDimensional))
            } else if shape@[1] > u32::MAX {
                Some(ErrorModel::Config(ConfigError::VocabOverflow { value: shape@[1] }))
            } else {
                None
            },
        }
    }

    /// The linear-attention dimensions are unusable.
    pub open spec fn ssm_error(self) -> Option<ErrorModel> {
        let k = val(self.ssm_group_count);
        let v = val(self.ssm_time_step_rank);
        let inner = val(self.ssm_inner_size);
        match first_fault(
            seq![
                (self.ssm_conv_kernel, MetaKey::SsmConvKernel),
                (self.ssm_group_count, MetaKey::SsmGroupCount),
                (self.ssm_time_step_rank, MetaKey::SsmTimeStepRank),
                (self.ssm_inner_size, MetaKey::SsmInnerSize),
                (self.ssm_state_size, MetaKey::SsmStateSize),
            ],
        ) {
            Some(e) => Some(e),
            None => if k == 0 || v == 0 || inner == 0 {
                Some(ErrorModel::Config(ConfigError::ZeroSsmDims))
            } else if inner % v != 0 {
                Some(
                    ErrorModel::Config(
                        ConfigError::InnerSizeNotMultiple { inner_size: inner, num_v_heads: v },
                    ),
                )
            } else if v % k != 0 {
                Some(
                    ErrorModel::Config(
                        ConfigError::ValueHeadsNotMultiple { num_v_heads: v, num_k_heads: k },
                    ),
                )
            } else {
                None
            },
        }
    }

    /// The linear-attention dimensions.
    pub open spec fn gdn_dims(self) -> GdnConfig {
        let k = val(self.ssm_group_count);
        let v = val(self.ssm_time_step_rank);
        let inner = val(self.ssm_inner_size);
        let key_dim = k * val(self.ssm_state_size);
        GdnConfig {
            conv_kernel: val(self.ssm_conv_kernel),
            num_k_heads: k,
            num_v_heads: v,
            head_k_dim: val(self.ssm_state_size),
            head_v_dim: inner / v,
            key_dim: key_dim as u32,
            value_dim: inner,
            conv_dim: (2 * key_dim + inner) as u32,
        }
    }

    /// The convolution width fits 32 bits.
    pub open spec fn dims_fit(self) -> bool {
        2 * (val(self.ssm_group_count) * val(self.ssm_state_size)) + val(self.ssm_inner_size)
            <= u32::MAX
    }

    /// The configuration these values make, before the final checks.
    pub open spec fn config(self) -> ConfigModel {
        let blocks = main_blocks(val(self.block_count), val(nextn(self.nextn_predict_layers)));
        ConfigModel {
            block_count: blocks->0,
            embedding_length: val(self.embedding_length),
            feed_forward_length: if self.is_moe() {
                val(self.expert_feed_forward_length)
            } else {
                val(self.feed_forward_length)
            },
            head_count: val(self.head_count),
            head_count_kv: val(self.head_count_kv),
            head_dim: val(self.key_length),
            rope_freq_base: val(self.rope_freq_base),
            rope_dim_count: val(self.rope_dimension_count),
            rms_eps: val(self.layer_norm_rms_epsilon),
            context_length: val(self.context_length),
            vocab_size: self.token_embedding->Ok_0@[1] as u32,
            layer_kinds: Seq::new(
                blocks->0 as nat,
                |i: int|
                    if i < self.has_ssm_a@.len() && self.has_ssm_a@[i] {
                        LayerKind::LinearAttention
                    } else {
                        LayerKind::FullAttention
                    },
            ),
            gdn: self.gdn_dims(),
            moe: if self.is_moe() {
                Some(
                    MoeConfig {
                        expert_count: val(self.expert_count),
                        expert_used_count: val(self.expert_used_count),
                        expert_ff_len: val(self.expert_feed_forward_length),
                        shared_ff_len: val(self.expert_shared_feed_forward_length),
                    },
                )
            } else {
                None
            },
        }
    }

    /// What is wrong with the checkpoint, if anything: the groups of checks
    /// in order, the first failure deciding.
    pub open spec fn error(self) -> Option<ErrorModel> {
        if self.arch_error() is Some {
            self.arch_error()
        } else if self.blocks_error() is Some {
            self.blocks_error()
        } else if self.dims_fault() is Some {
            self.dims_fault()
        } else if self.ffn_error() is Some {
            self.ffn_error()
        } else if self.vocab_error() is Some {
            self.vocab_error()
        } else if self.ssm_error() is Some {
            self.ssm_error()
        } else {
            match self.config().error() {
                Some(e) => Some(ErrorModel::Config(e)),
                None => None,
            }
        }
    }
}

impl ConfigModel {
    /// What is wrong with a configuration as a whole, if anything.
    pub open spec fn error(self) -> Option<ConfigError> {
        if self.block_count == 0 || self.embedding_length == 0 || self.feed_forward_length == 0 {
            Some(ConfigError::ZeroModelDims)
        } else if self.head_count == 0 || self.head_count_kv == 0 || self.head_dim == 0 {
            Some(ConfigError::ZeroHeadDims)
        } else if self.head_count % self.head_count_kv != 0 {
            Some(
                ConfigError::HeadsNotMultiple {
                    head_count: self.head_count,
                    head_count_kv: self.head_count_kv,
                },
            )
        } else if self.rope_dim_count == 0 || self.rope_dim_count > self.head_dim
            || self.rope_dim_count % 2 != 0 {
            Some(
                ConfigError::BadRopeDim {
                    rope_dim_count: self.rope_dim_count,
                    head_dim: self.head_dim,
                },
            )
        } else if self.vocab_size == 0 {
            Some(ConfigError::ZeroVocab)
        } else if !self.layer_kinds.contains(LayerKind::LinearAttention) {
            Some(ConfigError::NoLinearLayers)
        } else {
            None
        }
    }
}

/// Makes sure every key in a list has a value.
fn check_all(keys: &Vec<(Meta, MetaKey)>) -> (r: Result<(), RocmlError>)
    ensures
        match first_fault(keys@) {
            Some(e) => r is Err && r->Err_0@ == e,
            None => r is Ok && forall|i: int|
                0 <= i < keys@.len() ==> (#[trigger] keys@[i]).0 is Value,
        },
{
    let mut i: usize = 0;
    proof {
        assert(keys@.skip(0) =~= keys@);
    }
    while i < keys.len()
        invariant
            i <= keys@.len(),
            first_fault(keys@) == first_fault(keys@.skip(i as int)),
            forall|j: int| 0 <= j < i ==> (#[trigger] keys@[j]).0 is Value,
        decreases keys@.len() - i,
    {
        proof {
            assert(keys@.skip(i as int)[0] == keys@[i as int]);
            assert(keys@.skip(i as int).drop_first() =~= keys@.skip(i + 1));
        }
        match keys[i].0 {
            Meta::Fault(fault) => {
                return Err(RocmlError::Metadata { key: keys[i].1, fault });
            },
            Meta::Value(_) => {},
        }
        i = i + 1;
    }
    Ok(())
}

fn get(m: Meta) -> (r: u32)
    requires
        m is Value,
    ensures
        r == val(m),
{
    match m {
        Meta::Value(v) => v,
        Meta::Fault(_) => 0,
    }
}

fn config_error<T>(e: ConfigError) -> (r: Result<T, RocmlError>)
    ensures
        r is Err,
        r->Err_0@ == ErrorModel::Config(e),
{
    Err(RocmlError::Config(e))
}

impl GgufMeta {
    fn check_arch(&self) -> (r: Result<bool, RocmlError>)
        ensures
            match self.arch_error() {
                Some(e) => r is Err && r->Err_0@ == e,
                None => r is Ok && r->Ok_0 == self.is_moe(),
            },
    {
        proof {
            reveal_strlit("qwen35");
            reveal_strlit("qwen35moe");
        }
        match &self.architecture {
            Err(fault) => Err(
                RocmlError::Metadata { key: MetaKey::Architecture, fault: *fault },
            ),
            Ok(a) => if same_text(a.as_str(), "qwen35") {
                assert("qwen35"@.len() != "qwen35moe"@.len());
                Ok(false)
            } else if same_text(a.as_str(), "qwen35moe") {
                Ok(true)
            } else {
                Err(RocmlError::UnsupportedArchitecture { found: a.clone() })
            },
        }
    }

    fn check_blocks(&self) -> (r: Result<u32, RocmlError>)
        ensures
            match self.blocks_error() {
                Some(e) => r is Err && r->Err_0@ == e,
                None => r is Ok && Some(r->Ok_0) == main_blocks(
                    val(self.block_count),
                    val(nextn(self.nextn_predict_layers)),
                ),
            },
    {
        let n: Meta = match self.nextn_predict_layers {
            Meta::Fault(MetaFault::Missing) => Meta::Value(0),
            m => m,
        };
        let keys: Vec<(Meta, MetaKey)> = vec![
            (n, MetaKey::NextnPredictLayers),
            (self.block_count, MetaKey::BlockCount),
        ];
        proof {
            assert(keys@ =~= seq![
                (nextn(self.nextn_predict_layers), MetaKey::NextnPredictLayers),
                (self.block_count, MetaKey::BlockCount),
            ]);
        }
        match check_all(&keys) {
            Err(e) => Err(e),
            Ok(_) => {
                assert(keys@[0].0 is Value);
                assert(keys@[1].0 is Value);
                match main_block_count(get(self.block_count), get(n)) {
                    Ok(b) => Ok(b),
                    Err(e) => config_error(e),
                }
            },
        }
    }

    fn check_dims(&self) -> (r: Result<(), RocmlError>)
        ensures
            match self.dims_fault() {
                Some(e) => r is Err && r->Err_0@ == e,
                None => {
                    &&& r is Ok
                    &&& self.embedding_length is Value
                    &&& self.head_count is Value
                    &&& self.head_count_kv is Value
                    &&& self.key_length is Value
                    &&& self.rope_freq_base is Value
                    &&& self.rope_dimension_count is Value
                    &&& self.layer_norm_rms_epsilon is Value
                    &&& self.context_length is Value
                },
            },
    {
        let keys: Vec<(Meta, MetaKey)> = vec![
            (self.embedding_length, MetaKey::EmbeddingLength),
            (self.head_count, MetaKey::HeadCount),
            (self.head_count_kv, MetaKey::HeadCountKv),
            (self.key_length, MetaKey::KeyLength),
            (self.rope_freq_base, MetaKey::RopeFreqBase),
            (self.rope_dimension_count, MetaKey::RopeDimensionCount),
            (self.layer_norm_rms_epsilon, MetaKey::LayerNormRmsEpsilon),
            (self.context_length, MetaKey::ContextLength),
        ];
        proof {
            assert(keys@ =~= seq![
                (self.embedding_length, MetaKey::EmbeddingLength),
                (self.head_count, MetaKey::HeadCount),
                (self.head_count_kv, MetaKey::HeadCountKv),
                (self.key_length, MetaKey::KeyLength),
                (self.rope_freq_base, MetaKey::RopeFreqBase),
                (self.rope_dimension_count, MetaKey::RopeDimensionCount),
                (self.layer_norm_rms_epsilon, MetaKey::LayerNormRmsEpsilon),
                (self.context_length, MetaKey::ContextLength),
            ]);
        }
        let r = check_all(&keys);
        proof {
            if r is Ok {
                assert(keys@[0].0 is Value && keys@[1].0 is Value && keys@[2].0 is Value
                    && keys@[3].0 is Value && keys@[4].0 is Value && keys@[5].0 is Value
                    && keys@[6].0 is Value && keys@[7].0 is Value);
            }
        }
        r
    }

    fn check_ffn(&self, is_moe: bool) -> (r: Result<(u32, Option<MoeConfig>), RocmlError>)
        requires
            is_moe == self.is_moe(),
        ensures
            match self.ffn_error() {
                Some(e) => r is Err && r->Err_0@ == e,
                None => r is Ok && r->Ok_0 == (
                    self.config().feed_forward_length,
                    self.config().moe,
                ),
            },
    {
        if !is_moe {
            let keys: Vec<(Meta, MetaKey)> = vec![
                (self.feed_forward_length, MetaKey::FeedForwardLength),
            ];
            proof {
                assert(keys@ =~= seq![(self.feed_forward_length, MetaKey::FeedForwardLength)]);
            }
            return match check_all(&keys) {
                Err(e) => Err(e),
                Ok(_) => {
                    assert(keys@[0].0 is Value);
                    Ok((get(self.feed_forward_length), None))
                },
            };
        }
        let keys: Vec<(Meta, MetaKey)> = vec![
            (self.expert_count, MetaKey::ExpertCount),
            (self.expert_used_count, MetaKey::ExpertUsedCount),
            (self.expert_feed_forward_length, MetaKey::ExpertFeedForwardLength),
            (self.expert_shared_feed_forward_length, MetaKey::ExpertSharedFeedForwardLength),
        ];
        proof {
            assert(keys@ =~= seq![
                (self.expert_count, MetaKey::ExpertCount),
                (self.expert_used_count, MetaKey::ExpertUsedCount),
                (self.expert_feed_forward_length, MetaKey::ExpertFeedForwardLength),
                (self.expert_shared_feed_forward_length, MetaKey::ExpertSharedFeedForwardLength),
            ]);
        }
        match check_all(&keys) {
            Err(e) => {
                return Err(e);
            },
            Ok(_) => {},
        }
        assert(keys@[0].0 is Value && keys@[1].0 is Value && keys@[2].0 is Value
            && keys@[3].0 is Value);
        let m = MoeConfig {
            expert_count: get(self.expert_count),
            expert_used_count: get(self.expert_used_count),
            expert_ff_len: get(self.expert_feed_forward_length),
            shared_ff_len: get(self.expert_shared_feed_forward_length),
        };
        if m.expert_count == 0 || m.expert_ff_len == 0 || m.shared_ff_len == 0 {
            return config_error(ConfigError::ZeroExpertDims);
        }
        if m.expert_used_count == 0 || m.expert_used_count > m.expert_count {
            return config_error(
                ConfigError::BadExpertUsedCount {
                    used: m.expert_used_count,
                    count: m.expert_count,
                },
            );
        }
        Ok((m.expert_ff_len, Some(m)))
    }

    fn check_vocab(&self) -> (r: Result<u32, RocmlError>)
        ensures
            match self.vocab_error() {
                Some(e) => r is Err && r->Err_0@ == e,
                None => r is Ok && r->Ok_0 == self.config().vocab_size,
            },
    {
        match &self.token_embedding {
            Err(fault) => Err(
                RocmlError::Metadata { key: MetaKey::TokenEmbedding, fault: *fault },
            ),
            Ok(shape) => if shape.len() < 2 {
                config_error(ConfigError::EmbeddingNotTwoDimensional)
            } else if shape[1] > u32::MAX as u64 {
                config_error(ConfigError::VocabOverflow { value: shape[1] })
            } else {
                Ok(shape[1] as u32)
            },
        }
    }

    fn check_ssm(&self) -> (r: Result<GdnConfig, RocmlError>)
        ensures
            match self.ssm_error() {
                Some(e) => r is Err && r->Err_0@ == e,
                None => {
                    &&& r is Ok
                    &&& r->Ok_0 == self.gdn_dims()
                    &&& self.ssm_group_count is Value
                    &&& self.ssm_state_size is Value
                    &&& self.ssm_inner_size is Value
                },
            },
    {
        let keys: Vec<(Meta, MetaKey)> = vec![
            (self.ssm_conv_kernel, MetaKey::SsmConvKernel),
            (self.ssm_group_count, MetaKey::SsmGroupCount),
            (self.ssm_time_step_rank, MetaKey::SsmTimeStepRank),
            (self.ssm_inner_size, MetaKey::SsmInnerSize),
            (self.ssm_state_size, MetaKey::SsmStateSize),
        ];
        proof {
            assert(keys@ =~= seq![
                (self.ssm_conv_kernel, MetaKey::SsmConvKernel),
                (self.ssm_group_count, MetaKey::SsmGroupCount),
                (self.ssm_time_step_rank, MetaKey::SsmTimeStepRank),
                (self.ssm_inner_size, MetaKey::SsmInnerSize),
                (self.ssm_state_size, MetaKey::SsmStateSize),
            ]);
        }
        match check_all(&keys) {
            Err(e) => {
                return Err(e);
            },
            Ok(_) => {},
        }
        assert(keys@[0].0 is Value && keys@[1].0 is Value && keys@[2].0 is Value
            && keys@[3].0 is Value && keys@[4].0 is Value);
        let num_k_heads: u32 = get(self.ssm_group_count);
        let num_v_heads: u32 = get(self.ssm_time_step_rank);
        let inner_size: u32 = get(self.ssm_inner_size);
        let head_k_dim: u32 = get(self.ssm_state_size);
        if num_k_heads == 0 || num_v_heads == 0 || inner_size == 0 {
            return config_error(ConfigError::ZeroSsmDims);
        }
        if inner_size % num_v_heads != 0 {
            return config_error(ConfigError::InnerSizeNotMultiple { inner_size, num_v_heads });
        }
        if num_v_heads % num_k_heads != 0 {
            return config_error(ConfigError::ValueHeadsNotMultiple { num_v_heads, num_k_heads });
        }
        let head_v_dim: u32 = inner_size / num_v_heads;
        proof {
            assert(num_k_heads * head_k_dim <= 0xffff_ffff * 0xffff_ffff) by (nonlinear_arith)
                requires
                    num_k_heads <= 0xffff_ffff,
                    head_k_dim <= 0xffff_ffff,
            ;
            vstd::arithmetic::div_mod::lemma_fundamental_div_mod(
                inner_size as int,
                num_v_heads as int,
            );
        }
        let wide_key_dim: u128 = num_k_heads as u128 * head_k_dim as u128;
        let key_dim: u32 = wide_key_dim as u32;
        let value_dim: u32 = num_v_heads * head_v_dim;
        let conv_dim: u32 = (2 * wide_key_dim + value_dim as u128) as u32;
        Ok(
            GdnConfig {
                conv_kernel: get(self.ssm_conv_kernel),
                num_k_heads,
                num_v_heads,
                head_k_dim,
                head_v_dim,
                key_dim,
                value_dim,
                conv_dim,
            },
        )
    }

    fn wide_dims_fit(&self) -> (r: bool)
        requires
            self.ssm_group_count is Value,
            self.ssm_state_size is Value,
            self.ssm_inner_size is Value,
        ensures
            r == self.dims_fit(),
    {
        let k: u32 = get(self.ssm_group_count);
        let s: u32 = get(self.ssm_state_size);
        let inner: u32 = get(self.ssm_inner_size);
        proof {
            assert(k * s <= 0xffff_ffff * 0xffff_ffff) by (nonlinear_arith)
                requires
                    k <= 0xffff_ffff,
                    s <= 0xffff_ffff,
            ;
        }
        2 * (k as u128 * s as u128) + inner as u128 <= u32::MAX as u128
    }

    /// Whether a configuration can be derived, or is refused for another
    /// reason than its convolution width.
    pub fn check_dims_fit(&self) -> (r: bool)
        ensures
            r == (self.error() is None ==> self.dims_fit()),
    {
        match Qwen35Config::derive(self) {
            Err(_) => true,
            Ok(_) => self.wide_dims_fit(),
        }
    }
}

fn has_linear(kinds: &Vec<LayerKind>) -> (r: bool)
    ensures
        r == kinds@.contains(LayerKind::LinearAttention),
{
    let mut i: usize = 0;
    while i < kinds.len()
        invariant
            i <= kinds@.len(),
            forall|j: int| 0 <= j < i ==> kinds@[j] != LayerKind::LinearAttention,
        decreases kinds@.len() - i,
    {
        if kinds[i] == LayerKind::LinearAttention {
            assert(kinds@[i as int] == LayerKind::LinearAttention);
            return true;
        }
        i = i + 1;
    }
    false
}

impl Qwen35Config {
    /// Derives the hyperparameters from a checkpoint's metadata.
    pub fn from_gguf(meta: &GgufMeta) -> (r: Result<Self, RocmlError>)
        requires
            meta.error() is None ==> meta.dims_fit(),
        ensures
            match meta.error() {
                Some(e) => r is Err && r->Err_0@ == e,
                None => r is Ok && r->Ok_0@ == meta.config(),
            },
    {
        Self::derive(meta)
    }

    fn derive(meta: &GgufMeta) -> (r: Result<Self, RocmlError>)
        ensures
            match meta.error() {
                Some(e) => r is Err && r->Err_0@ == e,
                None => {
                    &&& r is Ok
                    &&& r->Ok_0@ == meta.config()
                    &&& meta.ssm_group_count is Value
                    &&& meta.ssm_state_size is Value
                    &&& meta.ssm_inner_size is Value
                },
            },
    {
        let is_moe: bool = match meta.check_arch() {
            Ok(b) => b,
            Err(e) => {
                return Err(e);
            },
        };
        let block_count: u32 = match meta.check_blocks() {
            Ok(n) => n,
            Err(e) => {
                return Err(e);
            },
        };
        match meta.check_dims() {
            Ok(_) => {},
            Err(e) => {
                return Err(e);
            },
        }
        let (feed_forward_length, moe) = match meta.check_ffn(is_moe) {
            Ok(x) => x,
            Err(e) => {
                return Err(e);
            },
        };
        let vocab_size: u32 = match meta.check_vocab() {
            Ok(n) => n,
            Err(e) => {
                return Err(e);
            },
        };
        let gdn: GdnConfig = match meta.check_ssm() {
            Ok(g) => g,
            Err(e) => {
                return Err(e);
            },
        };
        let mut layer_kinds: Vec<LayerKind> = Vec::new();
        let mut i: u32 = 0;
        while i < block_count
            invariant
                i <= block_count,
                layer_kinds@.len() == i,
                Some(block_count) == main_blocks(
                    val(meta.block_count),
                    val(nextn(meta.nextn_predict_layers)),
                ),
                forall|j: int|
                    0 <= j < i ==> layer_kinds@[j] == #[trigger] meta.config().layer_kinds[j],
            decreases block_count - i,
        {
            if (i as usize) < meta.has_ssm_a.len() && meta.has_ssm_a[i as usize] {
                layer_kinds.push(LayerKind::LinearAttention);
            } else {
                layer_kinds.push(LayerKind::FullAttention);
            }
            i = i + 1;
        }
        let config = Qwen35Config {
            block_count,
            embedding_length: get(meta.embedding_length),
            feed_forward_length,
            head_count: get(meta.head_count),
            head_count_kv: get(meta.head_count_kv),
            head_dim: get(meta.key_length),
            rope_freq_base: get(meta.rope_freq_base),
            rope_dim_count: get(meta.rope_dimension_count),
            rms_eps: get(meta.layer_norm_rms_epsilon),
            context_length: get(meta.context_length),
            vocab_size,
            layer_kinds,
            gdn,
            moe,
        };
        proof {
            assert(config.layer_kinds@ =~= meta.config().layer_kinds);
            assert(config@ == meta.config());
        }
        match config.check() {
            Ok(_) => Ok(config),
            Err(e) => config_error(e),
        }
    }

    fn check(&self) -> (r: Result<(), ConfigError>)
        ensures
            match self@.error() {
                Some(e) => r == Err::<(), ConfigError>(e),
                None => r is Ok,
            },
    {
        if self.block_count == 0 || self.embedding_length == 0 || self.feed_forward_length == 0 {
            return Err(ConfigError::ZeroModelDims);
        }
        if self.head_count == 0 || self.head_count_kv == 0 || self.head_dim == 0 {
            return Err(ConfigError::ZeroHeadDims);
        }
        if self.head_count % self.head_count_kv != 0 {
            return Err(
                ConfigError::HeadsNotMultiple {
                    head_count: self.head_count,
                    head_count_kv: self.head_count_kv,
                },
            );
        }
        if self.rope_dim_count == 0 || self.rope_dim_count > self.head_dim || self.rope_dim_count
            % 2 != 0 {
            return Err(
                ConfigError::BadRopeDim {
                    rope_dim_count: self.rope_dim_count,
                    head_dim: self.head_dim,
                },
            );
        }
        if self.vocab_size == 0 {
            return Err(ConfigError::ZeroVocab);
        }
        if !has_linear(&self.layer_kinds) {
            return Err(ConfigError::NoLinearLayers);
        }
        Ok(())
    }

    /// Query heads per key/value head.
    pub fn kv_group_size(&self) -> (r: u32)
        requires
            self.head_count_kv > 0,
        ensures
            r == self.head_count / self.head_count_kv,
    {
        self.head_count / self.head_count_kv
    }

    /// Width of all query heads together.
    pub fn q_dim(&self) -> (r: u32)
        requires
            self.head_count * self.head_dim <= u32::MAX,
        ensures
            r == self.head_count * self.head_dim,
    {
        self.head_count * self.head_dim
    }

    /// Width of all key/value heads together.
    pub fn kv_dim(&self) -> (r: u32)
        requires
            self.head_count_kv * self.head_dim <= u32::MAX,
        ensures
            r == self.head_count_kv * self.head_dim,
    {
        self.head_count_kv * self.head_dim
    }
}

/// A configuration that was accepted is consistent: the layers are counted,
/// at least one is linear, there are heads and they group evenly, and the
/// linear-attention dimensions fit together.
pub proof fn law_accepted_config_is_consistent(meta: GgufMeta)
    requires
        meta.error() is None,
        meta.dims_fit(),
    ensures
        meta.config().layer_kinds.len() == meta.config().block_count,
        meta.config().block_count > 0,
        meta.config().layer_kinds.contains(LayerKind::LinearAttention),
        meta.config().head_count > 0,
        meta.config().head_count_kv > 0,
        meta.config().head_dim > 0,
        meta.config().head_count % meta.config().head_count_kv == 0,
        meta.config().rope_dim_count <= meta.config().head_dim,
        meta.config().gdn.num_v_heads % meta.config().gdn.num_k_heads == 0,
        meta.config().gdn.num_v_heads * meta.config().gdn.head_v_dim
            == meta.config().gdn.value_dim,
        meta.config().gdn.num_k_heads * meta.config().gdn.head_k_dim == meta.config().gdn.key_dim,
        meta.config().gdn.conv_dim == 2 * meta.config().gdn.key_dim + meta.config().gdn.value_dim,
        meta.config().moe matches Some(m) ==> 0 < m.expert_used_count <= m.expert_count,
{
    let v = val(meta.ssm_time_step_rank);
    let inner = val(meta.ssm_inner_size);
    vstd::arithmetic::div_mod::lemma_fundamental_div_mod(inner as int, v as int);
}

} // verus!
