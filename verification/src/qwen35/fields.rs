//! Which field of a configuration each key of a checkpoint fills, and which
//! checkpoints are accepted.

use super::config::{val, first_fault, ConfigModel, GgufMeta, LayerKind, Meta};
use super::metadata::{key_text, number_keys};
use super::weights::layer_tensor;
use crate::error::{ConfigError, ErrorModel, MetaFault, MetaKey};
use vstd::prelude::*;

verus! {

/// A checkpoint file: the number under each name, and the shape of each
/// tensor it has.
pub struct Checkpoint {
    pub number: spec_fn(Seq<char>) -> Meta,
    pub shape: spec_fn(Seq<char>) -> Option<Seq<u64>>,
}

/// The metadata is what the file's keys and tensors gave, for a file of this
/// architecture.
pub open spec fn read_from(meta: GgufMeta, file: Checkpoint, arch: Seq<char>) -> bool {
    &&& meta.architecture is Ok
    &&& meta.architecture->Ok_0@ == arch
    &&& forall|key: MetaKey|
        number_keys().contains(key) ==> #[trigger] meta.number(key) == Some(
            (file.number)(key_text(arch, key)),
        )
    &&& match meta.token_embedding {
        Ok(shape) => (file.shape)("token_embd.weight"@) == Some(shape@),
        Err(_) => (file.shape)("token_embd.weight"@) is None,
    }
    &&& forall|i: u32|
        #![trigger layer_tensor(i, ".ssm_a"@)]
        i < val((file.number)(arch + ".block_count"@)) ==> ((file.shape)(
            layer_tensor(i, ".ssm_a"@),
        ) is Some <==> i < meta.has_ssm_a@.len() && meta.has_ssm_a@[i as int])
}

/// How many of the blocks only draft: none unless the file says so.
pub open spec fn drafts(file: Checkpoint, arch: Seq<char>) -> int {
    match (file.number)(arch + ".nextn_predict_layers"@) {
        Meta::Value(n) => n as int,
        Meta::Fault(_) => 0,
    }
}

proof fn lemma_keys(meta: GgufMeta, file: Checkpoint, arch: Seq<char>)
    requires
        read_from(meta, file, arch),
    ensures
        meta.nextn_predict_layers == (file.number)(arch + ".nextn_predict_layers"@),
        meta.block_count == (file.number)(arch + ".block_count"@),
        meta.embedding_length == (file.number)(arch + ".embedding_length"@),
        meta.head_count == (file.number)(arch + ".attention.head_count"@),
        meta.head_count_kv == (file.number)(arch + ".attention.head_count_kv"@),
        meta.key_length == (file.number)(arch + ".attention.key_length"@),
        meta.rope_freq_base == (file.number)(arch + ".rope.freq_base"@),
        meta.rope_dimension_count == (file.number)(arch + ".rope.dimension_count"@),
        meta.layer_norm_rms_epsilon == (file.number)(
            arch + ".attention.layer_norm_rms_epsilon"@,
        ),
        meta.context_length == (file.number)(arch + ".context_length"@),
        meta.expert_count == (file.number)(arch + ".expert_count"@),
        meta.expert_used_count == (file.number)(arch + ".expert_used_count"@),
        meta.expert_feed_forward_length == (file.number)(arch + ".expert_feed_forward_length"@),
        meta.expert_shared_feed_forward_length == (file.number)(
            arch + ".expert_shared_feed_forward_length"@,
        ),
        meta.feed_forward_length == (file.number)(arch + ".feed_forward_length"@),
        meta.ssm_conv_kernel == (file.number)(arch + ".ssm.conv_kernel"@),
        meta.ssm_group_count == (file.number)(arch + ".ssm.group_count"@),
        meta.ssm_time_step_rank == (file.number)(arch + ".ssm.time_step_rank"@),
        meta.ssm_inner_size == (file.number)(arch + ".ssm.inner_size"@),
        meta.ssm_state_size == (file.number)(arch + ".ssm.state_size"@),
{
    let k = number_keys();
    assert forall|i: int| 0 <= i < k.len() implies meta.number(#[trigger] k[i]) == Some(
        (file.number)(key_text(arch, k[i])),
    ) by {
        assert(k.contains(k[i]));
    }
    assert(meta.number(k[0]) == Some((file.number)(key_text(arch, k[0]))));
    assert(meta.number(k[1]) == Some((file.number)(key_text(arch, k[1]))));
    assert(meta.number(k[2]) == Some((file.number)(key_text(arch, k[2]))));
    assert(meta.number(k[3]) == Some((file.number)(key_text(arch, k[3]))));
    assert(meta.number(k[4]) == Some((file.number)(key_text(arch, k[4]))));
    assert(meta.number(k[5]) == Some((file.number)(key_text(arch, k[5]))));
    assert(meta.number(k[6]) == Some((file.number)(key_text(arch, k[6]))));
    assert(meta.number(k[7]) == Some((file.number)(key_text(arch, k[7]))));
    assert(meta.number(k[8]) == Some((file.number)(key_text(arch, k[8]))));
    assert(meta.number(k[9]) == Some((file.number)(key_text(arch, k[9]))));
    assert(meta.number(k[10]) == Some((file.number)(key_text(arch, k[10]))));
    assert(meta.number(k[11]) == Some((file.number)(key_text(arch, k[11]))));
    assert(meta.number(k[12]) == Some((file.number)(key_text(arch, k[12]))));
    assert(meta.number(k[13]) == Some((file.number)(key_text(arch, k[13]))));
    assert(meta.number(k[14]) == Some((file.number)(key_text(arch, k[14]))));
    assert(meta.number(k[15]) == Some((file.number)(key_text(arch, k[15]))));
    assert(meta.number(k[16]) == Some((file.number)(key_text(arch, k[16]))));
    assert(meta.number(k[17]) == Some((file.number)(key_text(arch, k[17]))));
    assert(meta.number(k[18]) == Some((file.number)(key_text(arch, k[18]))));
    assert(meta.number(k[19]) == Some((file.number)(key_text(arch, k[19]))));
}

proof fn lemma_faults(meta: GgufMeta)
    ensures
        meta.dims_fault() is None <==> {
            &&& meta.embedding_length is Value
            &&& meta.head_count is Value
            &&& meta.head_count_kv is Value
            &&& meta.key_length is Value
            &&& meta.rope_freq_base is Value
            &&& meta.rope_dimension_count is Value
            &&& meta.layer_norm_rms_epsilon is Value
            &&& meta.context_length is Value
        },
        meta.blocks_error() is None ==> meta.block_count is Value && (
        meta.nextn_predict_layers is Value || meta.nextn_predict_layers == Meta::Fault(
            MetaFault::Missing,
        )),
        meta.ffn_error() is None ==> if meta.is_moe() {
            &&& meta.expert_count is Value
            &&& meta.expert_used_count is Value
            &&& meta.expert_feed_forward_length is Value
            &&& meta.expert_shared_feed_forward_length is Value
        } else {
            meta.feed_forward_length is Value
        },
        meta.ssm_error() is None ==> {
            &&& meta.ssm_conv_kernel is Value
            &&& meta.ssm_group_count is Value
            &&& meta.ssm_time_step_rank is Value
            &&& meta.ssm_inner_size is Value
            &&& meta.ssm_state_size is Value
        },
{
    reveal_with_fuel(first_fault, 9);
}

/// The value under a name of the file.
pub open spec fn value(file: Checkpoint, arch: Seq<char>, name: Seq<char>) -> u32 {
    (file.number)(arch + name)->Value_0
}

/// Of an accepted checkpoint, every field that is read from one key is that
/// key's value, under the architecture's prefix; the forward pass has the
/// blocks that do not draft; a layer is linear exactly if the file has its
/// decay tensor; and the dimensions that no key names are products and
/// quotients of those that one names.
pub proof fn law_fields_are_what_their_keys_say(
    meta: GgufMeta,
    file: Checkpoint,
    arch: Seq<char>,
)
    requires
        read_from(meta, file, arch),
        meta.error() is None,
        meta.dims_fit(),
    ensures
        ({
            let c = meta.config();
            let v = |name: Seq<char>| value(file, arch, name);
            &&& c.embedding_length == v(".embedding_length"@)
            &&& c.head_count == v(".attention.head_count"@)
            &&& c.head_count_kv == v(".attention.head_count_kv"@)
            &&& c.head_dim == v(".attention.key_length"@)
            &&& c.rope_freq_base == v(".rope.freq_base"@)
            &&& c.rope_dim_count == v(".rope.dimension_count"@)
            &&& c.rms_eps == v(".attention.layer_norm_rms_epsilon"@)
            &&& c.context_length == v(".context_length"@)
            &&& c.block_count + drafts(file, arch) == v(".block_count"@)
            &&& (file.shape)("token_embd.weight"@) matches Some(shape) && c.vocab_size == shape[1]
            &&& c.gdn.conv_kernel == v(".ssm.conv_kernel"@)
            &&& c.gdn.num_k_heads == v(".ssm.group_count"@)
            &&& c.gdn.num_v_heads == v(".ssm.time_step_rank"@)
            &&& c.gdn.head_k_dim == v(".ssm.state_size"@)
            &&& c.gdn.value_dim == v(".ssm.inner_size"@)
            &&& c.gdn.num_v_heads * c.gdn.head_v_dim == c.gdn.value_dim
            &&& c.gdn.num_k_heads * c.gdn.head_k_dim == c.gdn.key_dim
            &&& c.gdn.conv_dim == c.gdn.key_dim + c.gdn.key_dim + c.gdn.value_dim
            &&& c.moe is Some <==> arch == "qwen35moe"@
            &&& match c.moe {
                Some(m) => {
                    &&& m.expert_count == v(".expert_count"@)
                    &&& m.expert_used_count == v(".expert_used_count"@)
                    &&& m.expert_ff_len == v(".expert_feed_forward_length"@)
                    &&& m.shared_ff_len == v(".expert_shared_feed_forward_length"@)
                    &&& c.feed_forward_length == m.expert_ff_len
                },
                None => c.feed_forward_length == v(".feed_forward_length"@),
            }
            &&& c.layer_kinds.len() == c.block_count
            &&& forall|i: u32|
                #![trigger layer_tensor(i, ".ssm_a"@)]
                i < c.block_count ==> (c.layer_kinds[i as int] == LayerKind::LinearAttention <==> (
                file.shape)(layer_tensor(i, ".ssm_a"@)) is Some)
        }),
{
    lemma_keys(meta, file, arch);
    lemma_faults(meta);
    let v = val(meta.ssm_time_step_rank);
    let inner = val(meta.ssm_inner_size);
    vstd::arithmetic::div_mod::lemma_fundamental_div_mod(inner as int, v as int);
    assert(v * (inner / v) == inner);
    let c = meta.config();
    assert forall|i: u32|
        #![trigger layer_tensor(i, ".ssm_a"@)]
        i < c.block_count implies (c.layer_kinds[i as int] == LayerKind::LinearAttention <==> (
    file.shape)(layer_tensor(i, ".ssm_a"@)) is Some) by {
        assert(i < val(meta.block_count));
    }
}

/// The field that a key fills; none for the two keys that only together give
/// the number of layers, and none for a key that the architecture does not
/// read.
pub open spec fn field(c: ConfigModel, key: MetaKey) -> Option<u32> {
    match key {
        MetaKey::EmbeddingLength => Some(c.embedding_length),
        MetaKey::HeadCount => Some(c.head_count),
        MetaKey::HeadCountKv => Some(c.head_count_kv),
        MetaKey::KeyLength => Some(c.head_dim),
        MetaKey::RopeFreqBase => Some(c.rope_freq_base),
        MetaKey::RopeDimensionCount => Some(c.rope_dim_count),
        MetaKey::LayerNormRmsEpsilon => Some(c.rms_eps),
        MetaKey::ContextLength => Some(c.context_length),
        MetaKey::SsmConvKernel => Some(c.gdn.conv_kernel),
        MetaKey::SsmGroupCount => Some(c.gdn.num_k_heads),
        MetaKey::SsmTimeStepRank => Some(c.gdn.num_v_heads),
        MetaKey::SsmStateSize => Some(c.gdn.head_k_dim),
        MetaKey::SsmInnerSize => Some(c.gdn.value_dim),
        MetaKey::ExpertCount => match c.moe {
            Some(m) => Some(m.expert_count),
            None => None,
        },
        MetaKey::ExpertUsedCount => match c.moe {
            Some(m) => Some(m.expert_used_count),
            None => None,
        },
        MetaKey::ExpertFeedForwardLength => match c.moe {
            Some(m) => Some(m.expert_ff_len),
            None => None,
        },
        MetaKey::ExpertSharedFeedForwardLength => match c.moe {
            Some(m) => Some(m.shared_ff_len),
            None => None,
        },
        MetaKey::FeedForwardLength => match c.moe {
            Some(_) => None,
            None => Some(c.feed_forward_length),
        },
        _ => None,
    }
}

/// Two checkpoints that agree on everything but what one key gives.
pub open spec fn differ_in(a: GgufMeta, b: GgufMeta, key: MetaKey) -> bool {
    &&& a.architecture is Ok
    &&& b.architecture is Ok
    &&& a.architecture->Ok_0@ == b.architecture->Ok_0@
    &&& a.token_embedding == b.token_embedding
    &&& a.has_ssm_a == b.has_ssm_a
    &&& forall|k: MetaKey| k != key ==> #[trigger] a.number(k) == b.number(k)
}

proof fn lemma_others_agree(a: GgufMeta, b: GgufMeta, key: MetaKey)
    requires
        differ_in(a, b, key),
    ensures
        key != MetaKey::NextnPredictLayers ==> a.nextn_predict_layers == b.nextn_predict_layers,
        key != MetaKey::BlockCount ==> a.block_count == b.block_count,
        key != MetaKey::EmbeddingLength ==> a.embedding_length == b.embedding_length,
        key != MetaKey::HeadCount ==> a.head_count == b.head_count,
        key != MetaKey::HeadCountKv ==> a.head_count_kv == b.head_count_kv,
        key != MetaKey::KeyLength ==> a.key_length == b.key_length,
        key != MetaKey::RopeFreqBase ==> a.rope_freq_base == b.rope_freq_base,
        key != MetaKey::RopeDimensionCount ==> a.rope_dimension_count == b.rope_dimension_count,
        key != MetaKey::LayerNormRmsEpsilon ==> a.layer_norm_rms_epsilon
            == b.layer_norm_rms_epsilon,
        key != MetaKey::ContextLength ==> a.context_length == b.context_length,
        key != MetaKey::ExpertCount ==> a.expert_count == b.expert_count,
        key != MetaKey::ExpertUsedCount ==> a.expert_used_count == b.expert_used_count,
        key != MetaKey::ExpertFeedForwardLength ==> a.expert_feed_forward_length
            == b.expert_feed_forward_length,
        key != MetaKey::ExpertSharedFeedForwardLength ==> a.expert_shared_feed_forward_length
            == b.expert_shared_feed_forward_length,
        key != MetaKey::FeedForwardLength ==> a.feed_forward_length == b.feed_forward_length,
        key != MetaKey::SsmConvKernel ==> a.ssm_conv_kernel == b.ssm_conv_kernel,
        key != MetaKey::SsmGroupCount ==> a.ssm_group_count == b.ssm_group_count,
        key != MetaKey::SsmTimeStepRank ==> a.ssm_time_step_rank == b.ssm_time_step_rank,
        key != MetaKey::SsmInnerSize ==> a.ssm_inner_size == b.ssm_inner_size,
        key != MetaKey::SsmStateSize ==> a.ssm_state_size == b.ssm_state_size,
{
    assert(key != MetaKey::NextnPredictLayers ==> a.number(MetaKey::NextnPredictLayers)
        == b.number(MetaKey::NextnPredictLayers));
    assert(key != MetaKey::BlockCount ==> a.number(MetaKey::BlockCount) == b.number(
        MetaKey::BlockCount,
    ));
    assert(key != MetaKey::EmbeddingLength ==> a.number(MetaKey::EmbeddingLength) == b.number(
        MetaKey::EmbeddingLength,
    ));
    assert(key != MetaKey::HeadCount ==> a.number(MetaKey::HeadCount) == b.number(
        MetaKey::HeadCount,
    ));
    assert(key != MetaKey::HeadCountKv ==> a.number(MetaKey::HeadCountKv) == b.number(
        MetaKey::HeadCountKv,
    ));
    assert(key != MetaKey::KeyLength ==> a.number(MetaKey::KeyLength) == b.number(
        MetaKey::KeyLength,
    ));
    assert(key != MetaKey::RopeFreqBase ==> a.number(MetaKey::RopeFreqBase) == b.number(
        MetaKey::RopeFreqBase,
    ));
    assert(key != MetaKey::RopeDimensionCount ==> a.number(MetaKey::RopeDimensionCount)
        == b.number(MetaKey::RopeDimensionCount));
    assert(key != MetaKey::LayerNormRmsEpsilon ==> a.number(MetaKey::LayerNormRmsEpsilon)
        == b.number(MetaKey::LayerNormRmsEpsilon));
    assert(key != MetaKey::ContextLength ==> a.number(MetaKey::ContextLength) == b.number(
        MetaKey::ContextLength,
    ));
    assert(key != MetaKey::ExpertCount ==> a.number(MetaKey::ExpertCount) == b.number(
        MetaKey::ExpertCount,
    ));
    assert(key != MetaKey::ExpertUsedCount ==> a.number(MetaKey::ExpertUsedCount) == b.number(
        MetaKey::ExpertUsedCount,
    ));
    assert(key != MetaKey::ExpertFeedForwardLength ==> a.number(MetaKey::ExpertFeedForwardLength)
        == b.number(MetaKey::ExpertFeedForwardLength));
    assert(key != MetaKey::ExpertSharedFeedForwardLength ==> a.number(
        MetaKey::ExpertSharedFeedForwardLength,
    ) == b.number(MetaKey::ExpertSharedFeedForwardLength));
    assert(key != MetaKey::FeedForwardLength ==> a.number(MetaKey::FeedForwardLength) == b.number(
        MetaKey::FeedForwardLength,
    ));
    assert(key != MetaKey::SsmConvKernel ==> a.number(MetaKey::SsmConvKernel) == b.number(
        MetaKey::SsmConvKernel,
    ));
    assert(key != MetaKey::SsmGroupCount ==> a.number(MetaKey::SsmGroupCount) == b.number(
        MetaKey::SsmGroupCount,
    ));
    assert(key != MetaKey::SsmTimeStepRank ==> a.number(MetaKey::SsmTimeStepRank) == b.number(
        MetaKey::SsmTimeStepRank,
    ));
    assert(key != MetaKey::SsmInnerSize ==> a.number(MetaKey::SsmInnerSize) == b.number(
        MetaKey::SsmInnerSize,
    ));
    assert(key != MetaKey::SsmStateSize ==> a.number(MetaKey::SsmStateSize) == b.number(
        MetaKey::SsmStateSize,
    ));
}

/// Between two accepted checkpoints that differ in one key alone, that key's
/// field is each one's own value of the key, and every other key's field is
/// the same. The number of layers changes only with the two keys that count
/// blocks.
pub proof fn law_a_key_changes_its_own_field_alone(a: GgufMeta, b: GgufMeta, key: MetaKey)
    requires
        differ_in(a, b, key),
        a.error() is None,
        b.error() is None,
        a.dims_fit(),
        b.dims_fit(),
    ensures
        forall|k: MetaKey|
            k != key ==> #[trigger] field(a.config(), k) == field(b.config(), k),
        field(a.config(), key) is Some ==> a.number(key) == Some(
            Meta::Value(field(a.config(), key)->0),
        ),
        field(b.config(), key) is Some ==> b.number(key) == Some(
            Meta::Value(field(b.config(), key)->0),
        ),
        key != MetaKey::BlockCount && key != MetaKey::NextnPredictLayers ==> {
            &&& a.config().block_count == b.config().block_count
            &&& a.config().layer_kinds == b.config().layer_kinds
        },
        a.config().vocab_size == b.config().vocab_size,
{
    lemma_others_agree(a, b, key);
    lemma_faults(a);
    lemma_faults(b);
    assert(a.is_moe() == b.is_moe());
    if key != MetaKey::BlockCount && key != MetaKey::NextnPredictLayers {
        assert(a.config().layer_kinds =~= b.config().layer_kinds);
    }
}

/// A key that the architecture does not read changes nothing: a dense model's
/// expert keys, a mixture's dense width.
pub proof fn law_unread_keys_change_nothing(a: GgufMeta, b: GgufMeta, key: MetaKey)
    requires
        differ_in(a, b, key),
        if a.architecture->Ok_0@ == "qwen35moe"@ {
            key == MetaKey::FeedForwardLength
        } else {
            ||| key == MetaKey::ExpertCount
            ||| key == MetaKey::ExpertUsedCount
            ||| key == MetaKey::ExpertFeedForwardLength
            ||| key == MetaKey::ExpertSharedFeedForwardLength
        },
    ensures
        a.error() == b.error(),
        a.error() is None ==> a.config() == b.config(),
{
    lemma_others_agree(a, b, key);
    assert(a.is_moe() == b.is_moe());
    assert(a.config().layer_kinds =~= b.config().layer_kinds);
    assert(a.config() == b.config());
}

/// What a usable checkpoint is.
pub open spec fn usable(file: Checkpoint, arch: Seq<char>) -> bool {
    let has = |name: Seq<char>| (file.number)(arch + name) is Value;
    let v = |name: Seq<char>| value(file, arch, name);
    &&& arch == "qwen35"@ || arch == "qwen35moe"@
    &&& has(".block_count"@)
    &&& (file.number)(arch + ".nextn_predict_layers"@) != Meta::Fault(MetaFault::Unreadable)
    &&& drafts(file, arch) < v(".block_count"@)
    &&& has(".embedding_length"@) && 0 < v(".embedding_length"@)
    &&& has(".attention.head_count"@) && 0 < v(".attention.head_count"@)
    &&& has(".attention.head_count_kv"@) && 0 < v(".attention.head_count_kv"@)
    &&& v(".attention.head_count"@) % v(".attention.head_count_kv"@) == 0
    &&& has(".attention.key_length"@) && 0 < v(".attention.key_length"@)
    &&& has(".rope.freq_base"@)
    &&& has(".rope.dimension_count"@)
    &&& 0 < v(".rope.dimension_count"@) <= v(".attention.key_length"@)
    &&& v(".rope.dimension_count"@) % 2 == 0
    &&& has(".attention.layer_norm_rms_epsilon"@)
    &&& has(".context_length"@)
    &&& if arch == "qwen35moe"@ {
        &&& has(".expert_count"@)
        &&& has(".expert_used_count"@)
        &&& 0 < v(".expert_used_count"@) <= v(".expert_count"@)
        &&& has(".expert_feed_forward_length"@) && 0 < v(".expert_feed_forward_length"@)
        &&& has(".expert_shared_feed_forward_length"@)
        &&& 0 < v(".expert_shared_feed_forward_length"@)
    } else {
        has(".feed_forward_length"@) && 0 < v(".feed_forward_length"@)
    }
    &&& (file.shape)("token_embd.weight"@) matches Some(shape) && shape.len() >= 2 && 0 < shape[1]
        <= u32::MAX
    &&& has(".ssm.conv_kernel"@)
    &&& has(".ssm.group_count"@) && 0 < v(".ssm.group_count"@)
    &&& has(".ssm.time_step_rank"@) && 0 < v(".ssm.time_step_rank"@)
    &&& v(".ssm.time_step_rank"@) % v(".ssm.group_count"@) == 0
    &&& has(".ssm.inner_size"@) && 0 < v(".ssm.inner_size"@)
    &&& v(".ssm.inner_size"@) % v(".ssm.time_step_rank"@) == 0
    &&& has(".ssm.state_size"@)
    &&& exists|i: u32|
        #![trigger layer_tensor(i, ".ssm_a"@)]
        i < v(".block_count"@) - drafts(file, arch) && (file.shape)(
            layer_tensor(i, ".ssm_a"@),
        ) is Some
}

/// A checkpoint is accepted exactly if it is usable.
pub proof fn law_usable_checkpoints_are_accepted(meta: GgufMeta, file: Checkpoint, arch: Seq<char>)
    requires
        read_from(meta, file, arch),
    ensures
        meta.error() is None <==> usable(file, arch),
{
    reveal_with_fuel(first_fault, 9);
    lemma_keys(meta, file, arch);
    let kinds = meta.config().layer_kinds;
    if meta.error() is None {
        let i = choose|i: int| 0 <= i < kinds.len() && kinds[i] == LayerKind::LinearAttention;
        let j = i as u32;
        assert((file.shape)(layer_tensor(j, ".ssm_a"@)) is Some);
    }
    if usable(file, arch) {
        let i = choose|i: u32|
            #![trigger layer_tensor(i, ".ssm_a"@)]
            i < value(file, arch, ".block_count"@) - drafts(file, arch) && (file.shape)(
                layer_tensor(i, ".ssm_a"@),
            ) is Some;
        assert(kinds[i as int] == LayerKind::LinearAttention);
    }
}

/// A refusal tells what is wrong: a key it names gave no value, and this is
/// why; the numbers it carries are those of the file; and what it says of
/// them is so.
pub proof fn law_a_refusal_tells_what_is_wrong(meta: GgufMeta, file: Checkpoint, arch: Seq<char>)
    requires
        read_from(meta, file, arch),
        meta.error() is Some,
    ensures
        ({
            let v = |name: Seq<char>| value(file, arch, name);
            match meta.error()->0 {
                ErrorModel::UnsupportedArchitecture { found } => found == arch && arch
                    != "qwen35"@ && arch != "qwen35moe"@,
                ErrorModel::Metadata { key, fault } => match meta.number(key) {
                    Some(_) => (file.number)(key_text(arch, key)) == Meta::Fault(fault),
                    None => key == MetaKey::TokenEmbedding && (file.shape)(
                        "token_embd.weight"@,
                    ) is None,
                },
                ErrorModel::Config(e) => match e {
                    ConfigError::NoForwardLayers { block_count, nextn_layers } => {
                        &&& block_count == v(".block_count"@)
                        &&& nextn_layers == drafts(file, arch)
                        &&& block_count <= nextn_layers
                    },
                    ConfigError::ZeroExpertDims => arch == "qwen35moe"@ && (v(".expert_count"@) == 0
                        || v(".expert_feed_forward_length"@) == 0 || v(
                        ".expert_shared_feed_forward_length"@,
                    ) == 0),
                    ConfigError::BadExpertUsedCount { used, count } => {
                        &&& arch == "qwen35moe"@
                        &&& used == v(".expert_used_count"@)
                        &&& count == v(".expert_count"@)
                        &&& used == 0 || count < used
                    },
                    ConfigError::EmbeddingNotTwoDimensional => (file.shape)(
                        "token_embd.weight"@,
                    ) matches Some(shape) && shape.len() < 2,
                    ConfigError::VocabOverflow { value } => (file.shape)(
                        "token_embd.weight"@,
                    ) matches Some(shape) && value == shape[1] && value > u32::MAX,
                    ConfigError::ZeroSsmDims => v(".ssm.group_count"@) == 0 || v(
                        ".ssm.time_step_rank"@,
                    ) == 0 || v(".ssm.inner_size"@) == 0,
                    ConfigError::InnerSizeNotMultiple { inner_size, num_v_heads } => {
                        &&& inner_size == v(".ssm.inner_size"@)
                        &&& num_v_heads == v(".ssm.time_step_rank"@)
                        &&& inner_size % num_v_heads != 0
                    },
                    ConfigError::ValueHeadsNotMultiple { num_v_heads, num_k_heads } => {
                        &&& num_v_heads == v(".ssm.time_step_rank"@)
                        &&& num_k_heads == v(".ssm.group_count"@)
                        &&& num_v_heads % num_k_heads != 0
                    },
                    ConfigError::ZeroModelDims => v(".embedding_length"@) == 0 || arch
                        != "qwen35moe"@ && v(".feed_forward_length"@) == 0,
                    ConfigError::ZeroHeadDims => v(".attention.head_count"@) == 0 || v(
                        ".attention.head_count_kv"@,
                    ) == 0 || v(".attention.key_length"@) == 0,
                    ConfigError::HeadsNotMultiple { head_count, head_count_kv } => {
                        &&& head_count == v(".attention.head_count"@)
                        &&& head_count_kv == v(".attention.head_count_kv"@)
                        &&& head_count % head_count_kv != 0
                    },
                    ConfigError::BadRopeDim { rope_dim_count, head_dim } => {
                        &&& rope_dim_count == v(".rope.dimension_count"@)
                        &&& head_dim == v(".attention.key_length"@)
                        &&& rope_dim_count == 0 || head_dim < rope_dim_count || rope_dim_count % 2
                            == 1
                    },
                    ConfigError::ZeroVocab => (file.shape)("token_embd.weight"@) matches Some(
                        shape,
                    ) && shape[1] == 0,
                    ConfigError::NoLinearLayers => forall|i: u32|
                        #![trigger layer_tensor(i, ".ssm_a"@)]
                        i < v(".block_count"@) - drafts(file, arch) ==> (file.shape)(
                            layer_tensor(i, ".ssm_a"@),
                        ) is None,
                    _ => false,
                },
                _ => false,
            }
        }),
{
    reveal_with_fuel(first_fault, 9);
    lemma_keys(meta, file, arch);
    let c = meta.config();
    if meta.error() == Some(ErrorModel::Config(ConfigError::NoLinearLayers)) {
        assert forall|i: u32|
            #![trigger layer_tensor(i, ".ssm_a"@)]
            i < value(file, arch, ".block_count"@) - drafts(file, arch) implies (file.shape)(
            layer_tensor(i, ".ssm_a"@),
        ) is None by {
            assert(i < c.layer_kinds.len());
            assert(c.layer_kinds.contains(c.layer_kinds[i as int]));
        }
    }
    if let ErrorModel::Metadata { key, fault } = meta.error()->0 {
        if meta.number(key) is Some {
            let k = number_keys();
            assert(k[0] == MetaKey::NextnPredictLayers);
            assert(k[1] == MetaKey::BlockCount);
            assert(k[2] == MetaKey::EmbeddingLength);
            assert(k[3] == MetaKey::HeadCount);
            assert(k[4] == MetaKey::HeadCountKv);
            assert(k[5] == MetaKey::KeyLength);
            assert(k[6] == MetaKey::RopeFreqBase);
            assert(k[7] == MetaKey::RopeDimensionCount);
            assert(k[8] == MetaKey::LayerNormRmsEpsilon);
            assert(k[9] == MetaKey::ContextLength);
            assert(k[10] == MetaKey::ExpertCount);
            assert(k[11] == MetaKey::ExpertUsedCount);
            assert(k[12] == MetaKey::ExpertFeedForwardLength);
            assert(k[13] == MetaKey::ExpertSharedFeedForwardLength);
            assert(k[14] == MetaKey::FeedForwardLength);
            assert(k[15] == MetaKey::SsmConvKernel);
            assert(k[16] == MetaKey::SsmGroupCount);
            assert(k[17] == MetaKey::SsmTimeStepRank);
            assert(k[18] == MetaKey::SsmInnerSize);
            assert(k[19] == MetaKey::SsmStateSize);
            assert(k.contains(key));
        }
    }
}

} // verus!
