//! Which key of a checkpoint's metadata each hyperparameter is read from.

use super::config::{GgufMeta, Meta};
use super::weights::{layer_tensor, layer_tensor_name};
use crate::error::{MetaFault, MetaKey};
use vstd::prelude::*;

verus! {

/// What follows the architecture in a key's name; none for a key whose name
/// does not depend on the architecture.
pub open spec fn key_suffix(key: MetaKey) -> Option<Seq<char>> {
    match key {
        MetaKey::Architecture => None,
        MetaKey::TokenEmbedding => None,
        MetaKey::NextnPredictLayers => Some(".nextn_predict_layers"@),
        MetaKey::BlockCount => Some(".block_count"@),
        MetaKey::EmbeddingLength => Some(".embedding_length"@),
        MetaKey::HeadCount => Some(".attention.head_count"@),
        MetaKey::HeadCountKv => Some(".attention.head_count_kv"@),
        MetaKey::KeyLength => Some(".attention.key_length"@),
        MetaKey::RopeFreqBase => Some(".rope.freq_base"@),
        MetaKey::RopeDimensionCount => Some(".rope.dimension_count"@),
        MetaKey::LayerNormRmsEpsilon => Some(".attention.layer_norm_rms_epsilon"@),
        MetaKey::ContextLength => Some(".context_length"@),
        MetaKey::ExpertCount => Some(".expert_count"@),
        MetaKey::ExpertUsedCount => Some(".expert_used_count"@),
        MetaKey::ExpertFeedForwardLength => Some(".expert_feed_forward_length"@),
        MetaKey::ExpertSharedFeedForwardLength => Some(".expert_shared_feed_forward_length"@),
        MetaKey::FeedForwardLength => Some(".feed_forward_length"@),
        MetaKey::SsmConvKernel => Some(".ssm.conv_kernel"@),
        MetaKey::SsmGroupCount => Some(".ssm.group_count"@),
        MetaKey::SsmTimeStepRank => Some(".ssm.time_step_rank"@),
        MetaKey::SsmInnerSize => Some(".ssm.inner_size"@),
        MetaKey::SsmStateSize => Some(".ssm.state_size"@),
    }
}

/// The name of a key in a checkpoint of this architecture: all but two carry
/// the architecture as their prefix. The embedding's shape is that of a
/// tensor, whose name this is.
pub open spec fn key_text(arch: Seq<char>, key: MetaKey) -> Seq<char> {
    match (key, key_suffix(key)) {
        (_, Some(suffix)) => arch + suffix,
        (MetaKey::Architecture, None) => "general.architecture"@,
        _ => "token_embd.weight"@,
    }
}

/// The keys that name a number, in the order they are read.
pub open spec fn number_keys() -> Seq<MetaKey> {
    seq![
        MetaKey::NextnPredictLayers,
        MetaKey::BlockCount,
        MetaKey::EmbeddingLength,
        MetaKey::HeadCount,
        MetaKey::HeadCountKv,
        MetaKey::KeyLength,
        MetaKey::RopeFreqBase,
        MetaKey::RopeDimensionCount,
        MetaKey::LayerNormRmsEpsilon,
        MetaKey::ContextLength,
        MetaKey::ExpertCount,
        MetaKey::ExpertUsedCount,
        MetaKey::ExpertFeedForwardLength,
        MetaKey::ExpertSharedFeedForwardLength,
        MetaKey::FeedForwardLength,
        MetaKey::SsmConvKernel,
        MetaKey::SsmGroupCount,
        MetaKey::SsmTimeStepRank,
        MetaKey::SsmInnerSize,
        MetaKey::SsmStateSize,
    ]
}

/// Every number is read under the architecture's own prefix.
pub proof fn law_numbers_are_read_under_the_architecture(arch: Seq<char>, key: MetaKey)
    requires
        number_keys().contains(key),
    ensures
        arch.push('.').is_prefix_of(key_text(arch, key)),
{
    reveal_strlit(".nextn_predict_layers");
    reveal_strlit(".block_count");
    reveal_strlit(".embedding_length");
    reveal_strlit(".attention.head_count");
    reveal_strlit(".attention.head_count_kv");
    reveal_strlit(".attention.key_length");
    reveal_strlit(".rope.freq_base");
    reveal_strlit(".rope.dimension_count");
    reveal_strlit(".attention.layer_norm_rms_epsilon");
    reveal_strlit(".context_length");
    reveal_strlit(".expert_count");
    reveal_strlit(".expert_used_count");
    reveal_strlit(".expert_feed_forward_length");
    reveal_strlit(".expert_shared_feed_forward_length");
    reveal_strlit(".feed_forward_length");
    reveal_strlit(".ssm.conv_kernel");
    reveal_strlit(".ssm.group_count");
    reveal_strlit(".ssm.time_step_rank");
    reveal_strlit(".ssm.inner_size");
    reveal_strlit(".ssm.state_size");
    let k = choose|k: int| 0 <= k < number_keys().len() && number_keys()[k] == key;
    assert(key_suffix(key) is Some);
    let suffix = key_suffix(key)->0;
    assert(suffix.len() > 0 && suffix[0] == '.');
    assert(arch.push('.') =~= key_text(arch, key).subrange(0, arch.len() as int + 1));
}

impl GgufMeta {
    /// What was read under a key that names a number.
    pub open spec fn number(self, key: MetaKey) -> Option<Meta> {
        match key {
            MetaKey::Architecture => None,
            MetaKey::TokenEmbedding => None,
            MetaKey::NextnPredictLayers => Some(self.nextn_predict_layers),
            MetaKey::BlockCount => Some(self.block_count),
            MetaKey::EmbeddingLength => Some(self.embedding_length),
            MetaKey::HeadCount => Some(self.head_count),
            MetaKey::HeadCountKv => Some(self.head_count_kv),
            MetaKey::KeyLength => Some(self.key_length),
            MetaKey::RopeFreqBase => Some(self.rope_freq_base),
            MetaKey::RopeDimensionCount => Some(self.rope_dimension_count),
            MetaKey::LayerNormRmsEpsilon => Some(self.layer_norm_rms_epsilon),
            MetaKey::ContextLength => Some(self.context_length),
            MetaKey::ExpertCount => Some(self.expert_count),
            MetaKey::ExpertUsedCount => Some(self.expert_used_count),
            MetaKey::ExpertFeedForwardLength => Some(self.expert_feed_forward_length),
            MetaKey::ExpertSharedFeedForwardLength => Some(self.expert_shared_feed_forward_length),
            MetaKey::FeedForwardLength => Some(self.feed_forward_length),
            MetaKey::SsmConvKernel => Some(self.ssm_conv_kernel),
            MetaKey::SsmGroupCount => Some(self.ssm_group_count),
            MetaKey::SsmTimeStepRank => Some(self.ssm_time_step_rank),
            MetaKey::SsmInnerSize => Some(self.ssm_inner_size),
            MetaKey::SsmStateSize => Some(self.ssm_state_size),
        }
    }

    /// Metadata out of what was read: a value, or why there is none, for each
    /// of [`keys_to_read`] in order.
    pub fn gathered(
        architecture: Result<String, MetaFault>,
        numbers: &[Meta],
        token_embedding: Result<Vec<u64>, MetaFault>,
        has_ssm_a: Vec<bool>,
    ) -> (r: Self)
        requires
            numbers@.len() == number_keys().len(),
        ensures
            r.architecture == architecture,
            r.token_embedding == token_embedding,
            r.has_ssm_a == has_ssm_a,
            forall|k: int|
                0 <= k < number_keys().len() ==> r.number(#[trigger] number_keys()[k]) == Some(
                    numbers@[k],
                ),
    {
        let r = GgufMeta {
            architecture,
            token_embedding,
            has_ssm_a,
            nextn_predict_layers: numbers[0],
            block_count: numbers[1],
            embedding_length: numbers[2],
            head_count: numbers[3],
            head_count_kv: numbers[4],
            key_length: numbers[5],
            rope_freq_base: numbers[6],
            rope_dimension_count: numbers[7],
            layer_norm_rms_epsilon: numbers[8],
            context_length: numbers[9],
            expert_count: numbers[10],
            expert_used_count: numbers[11],
            expert_feed_forward_length: numbers[12],
            expert_shared_feed_forward_length: numbers[13],
            feed_forward_length: numbers[14],
            ssm_conv_kernel: numbers[15],
            ssm_group_count: numbers[16],
            ssm_time_step_rank: numbers[17],
            ssm_inner_size: numbers[18],
            ssm_state_size: numbers[19],
        };
        proof {
            let keys = number_keys();
            assert forall|k: int| 0 <= k < keys.len() implies r.number(#[trigger] keys[k]) == Some(
                numbers@[k],
            ) by {
                assert(k == 0 || k == 1 || k == 2 || k == 3 || k == 4 || k == 5 || k == 6 || k == 7 || k == 8 || k == 9 || k == 10 || k == 11 || k == 12 || k == 13 || k == 14 || k == 15 || k == 16 || k == 17 || k == 18 || k == 19);
            }
        }
        r
    }
}

/// The keys that name a number, in the order they are read.
pub fn keys_to_read() -> (r: Vec<MetaKey>)
    ensures
        r@ == number_keys(),
{
    let r: Vec<MetaKey> = vec![
        MetaKey::NextnPredictLayers,
        MetaKey::BlockCount,
        MetaKey::EmbeddingLength,
        MetaKey::HeadCount,
        MetaKey::HeadCountKv,
        MetaKey::KeyLength,
        MetaKey::RopeFreqBase,
        MetaKey::RopeDimensionCount,
        MetaKey::LayerNormRmsEpsilon,
        MetaKey::ContextLength,
        MetaKey::ExpertCount,
        MetaKey::ExpertUsedCount,
        MetaKey::ExpertFeedForwardLength,
        MetaKey::ExpertSharedFeedForwardLength,
        MetaKey::FeedForwardLength,
        MetaKey::SsmConvKernel,
        MetaKey::SsmGroupCount,
        MetaKey::SsmTimeStepRank,
        MetaKey::SsmInnerSize,
        MetaKey::SsmStateSize,
    ];
    assert(r@ =~= number_keys());
    r
}

/// Whether a number is stored as a floating-point number.
pub fn is_float(key: MetaKey) -> (r: bool)
    ensures
        r == (key == MetaKey::RopeFreqBase || key == MetaKey::LayerNormRmsEpsilon),
{
    match key {
        MetaKey::RopeFreqBase => true,
        MetaKey::LayerNormRmsEpsilon => true,
        _ => false,
    }
}

fn suffixed(arch: &str, suffix: &str) -> (r: String)
    ensures
        r@ == arch@ + suffix@,
{
    let mut out = String::new();
    out.append(arch);
    out.append(suffix);
    proof {
        assert(out@ =~= arch@ + suffix@);
    }
    out
}

/// The name of a key in a checkpoint of this architecture.
pub fn key_name(arch: &str, key: MetaKey) -> (r: String)
    ensures
        r@ == key_text(arch@, key),
{
    match key {
        MetaKey::Architecture => "general.architecture".to_owned(),
        MetaKey::TokenEmbedding => "token_embd.weight".to_owned(),
        MetaKey::NextnPredictLayers => suffixed(arch, ".nextn_predict_layers"),
        MetaKey::BlockCount => suffixed(arch, ".block_count"),
        MetaKey::EmbeddingLength => suffixed(arch, ".embedding_length"),
        MetaKey::HeadCount => suffixed(arch, ".attention.head_count"),
        MetaKey::HeadCountKv => suffixed(arch, ".attention.head_count_kv"),
        MetaKey::KeyLength => suffixed(arch, ".attention.key_length"),
        MetaKey::RopeFreqBase => suffixed(arch, ".rope.freq_base"),
        MetaKey::RopeDimensionCount => suffixed(arch, ".rope.dimension_count"),
        MetaKey::LayerNormRmsEpsilon => suffixed(arch, ".attention.layer_norm_rms_epsilon"),
        MetaKey::ContextLength => suffixed(arch, ".context_length"),
        MetaKey::ExpertCount => suffixed(arch, ".expert_count"),
        MetaKey::ExpertUsedCount => suffixed(arch, ".expert_used_count"),
        MetaKey::ExpertFeedForwardLength => suffixed(arch, ".expert_feed_forward_length"),
        MetaKey::ExpertSharedFeedForwardLength => suffixed(arch, ".expert_shared_feed_forward_length"),
        MetaKey::FeedForwardLength => suffixed(arch, ".feed_forward_length"),
        MetaKey::SsmConvKernel => suffixed(arch, ".ssm.conv_kernel"),
        MetaKey::SsmGroupCount => suffixed(arch, ".ssm.group_count"),
        MetaKey::SsmTimeStepRank => suffixed(arch, ".ssm.time_step_rank"),
        MetaKey::SsmInnerSize => suffixed(arch, ".ssm.inner_size"),
        MetaKey::SsmStateSize => suffixed(arch, ".ssm.state_size"),
    }
}

/// The name of the tensor that only a linear-attention block has.
pub fn decay_tensor_name(block: u32) -> (r: String)
    ensures
        r@ == layer_tensor(block, ".ssm_a"@),
{
    layer_tensor_name(block, ".ssm_a")
}

} // verus!
