//! Hyperparameters from a checkpoint's metadata.

use rocml::error::{ConfigError, MetaFault, MetaKey, RocmlError};
use rocml::qwen35::config::{main_block_count, GgufMeta, LayerKind, Meta, Qwen35Config};
use rocml::qwen35::metadata::{decay_tensor_name, is_float, key_name, keys_to_read};

fn dense_meta() -> GgufMeta {
    GgufMeta {
        architecture: Ok("qwen35".to_string()),
        nextn_predict_layers: Meta::Fault(MetaFault::Missing),
        block_count: Meta::Value(4),
        embedding_length: Meta::Value(64),
        head_count: Meta::Value(4),
        head_count_kv: Meta::Value(2),
        key_length: Meta::Value(16),
        rope_freq_base: Meta::Value(1.0e6f32.to_bits()),
        rope_dimension_count: Meta::Value(8),
        layer_norm_rms_epsilon: Meta::Value(1.0e-6f32.to_bits()),
        context_length: Meta::Value(4096),
        expert_count: Meta::Fault(MetaFault::Missing),
        expert_used_count: Meta::Fault(MetaFault::Missing),
        expert_feed_forward_length: Meta::Fault(MetaFault::Missing),
        expert_shared_feed_forward_length: Meta::Fault(MetaFault::Missing),
        feed_forward_length: Meta::Value(128),
        token_embedding: Ok(vec![64, 1000]),
        ssm_conv_kernel: Meta::Value(4),
        ssm_group_count: Meta::Value(2),
        ssm_time_step_rank: Meta::Value(4),
        ssm_inner_size: Meta::Value(32),
        ssm_state_size: Meta::Value(8),
        has_ssm_a: vec![true, true, true, false],
    }
}

fn moe_meta() -> GgufMeta {
    GgufMeta {
        architecture: Ok("qwen35moe".to_string()),
        expert_count: Meta::Value(16),
        expert_used_count: Meta::Value(4),
        expert_feed_forward_length: Meta::Value(32),
        expert_shared_feed_forward_length: Meta::Value(48),
        ..dense_meta()
    }
}

fn config_error(meta: GgufMeta) -> ConfigError {
    assert!(meta.check_dims_fit());
    match Qwen35Config::from_gguf(&meta) {
        Err(RocmlError::Config(e)) => e,
        other => panic!("expected a configuration error, got {other:?}"),
    }
}

#[test]
fn no_mtp_blocks_keeps_every_layer() {
    assert_eq!(main_block_count(32, 0).unwrap(), 32);
}

#[test]
fn trailing_mtp_block_is_excluded() {
    assert_eq!(main_block_count(33, 1).unwrap(), 32);
}

#[test]
fn mtp_blocks_covering_every_layer_are_rejected() {
    assert!(main_block_count(1, 1).is_err());
    assert!(main_block_count(1, 2).is_err());
}

#[test]
fn dense_checkpoint_gives_its_dimensions() {
    let cfg = Qwen35Config::from_gguf(&dense_meta()).unwrap();
    assert_eq!(cfg.block_count, 4);
    assert_eq!(cfg.vocab_size, 1000);
    assert_eq!(
        cfg.layer_kinds,
        vec![
            LayerKind::LinearAttention,
            LayerKind::LinearAttention,
            LayerKind::LinearAttention,
            LayerKind::FullAttention,
        ]
    );
    assert_eq!(cfg.gdn.key_dim, 16);
    assert_eq!(cfg.gdn.value_dim, 32);
    assert_eq!(cfg.gdn.conv_dim, 64);
    assert_eq!(cfg.gdn.head_v_dim, 8);
    assert!(cfg.moe.is_none());
    assert_eq!(cfg.kv_group_size(), 2);
    assert_eq!(cfg.q_dim(), 64);
    assert_eq!(cfg.kv_dim(), 32);
}

#[test]
fn mixture_of_experts_checkpoint_gives_its_dimensions() {
    let cfg = Qwen35Config::from_gguf(&moe_meta()).unwrap();
    let moe = cfg.moe.unwrap();
    assert_eq!(moe.expert_count, 16);
    assert_eq!(moe.expert_used_count, 4);
    assert_eq!(moe.expert_ff_len, 32);
    assert_eq!(moe.shared_ff_len, 48);
}

#[test]
fn draft_blocks_are_no_layers() {
    let meta = GgufMeta {
        nextn_predict_layers: Meta::Value(1),
        block_count: Meta::Value(5),
        has_ssm_a: vec![true, true, true, false, false],
        ..dense_meta()
    };
    let cfg = Qwen35Config::from_gguf(&meta).unwrap();
    assert_eq!(cfg.block_count, 4);
    assert_eq!(cfg.layer_kinds.len(), 4);
    assert_eq!(
        config_error(GgufMeta {
            nextn_predict_layers: Meta::Value(4),
            ..dense_meta()
        }),
        ConfigError::NoForwardLayers { block_count: 4, nextn_layers: 4 }
    );
}

#[test]
fn other_architectures_are_refused() {
    let meta = GgufMeta { architecture: Ok("llama".to_string()), ..dense_meta() };
    match Qwen35Config::from_gguf(&meta) {
        Err(RocmlError::UnsupportedArchitecture { found }) => assert_eq!(found, "llama"),
        other => panic!("unexpected {other:?}"),
    }
}

#[test]
fn missing_and_unreadable_keys_are_named() {
    let missing = GgufMeta { head_count: Meta::Fault(MetaFault::Missing), ..dense_meta() };
    match Qwen35Config::from_gguf(&missing) {
        Err(RocmlError::Metadata { key, fault }) => {
            assert_eq!(key, MetaKey::HeadCount);
            assert_eq!(fault, MetaFault::Missing);
        }
        other => panic!("unexpected {other:?}"),
    }
    let unreadable =
        GgufMeta { ssm_conv_kernel: Meta::Fault(MetaFault::Unreadable), ..dense_meta() };
    match Qwen35Config::from_gguf(&unreadable) {
        Err(RocmlError::Metadata { key, fault }) => {
            assert_eq!(key, MetaKey::SsmConvKernel);
            assert_eq!(fault, MetaFault::Unreadable);
        }
        other => panic!("unexpected {other:?}"),
    }
}

#[test]
fn inconsistent_dimensions_are_refused() {
    assert_eq!(
        config_error(GgufMeta { head_count: Meta::Value(3), ..dense_meta() }),
        ConfigError::HeadsNotMultiple { head_count: 3, head_count_kv: 2 }
    );
    assert_eq!(
        config_error(GgufMeta { head_count: Meta::Value(0), ..dense_meta() }),
        ConfigError::ZeroHeadDims
    );
    assert_eq!(
        config_error(GgufMeta { rope_dimension_count: Meta::Value(7), ..dense_meta() }),
        ConfigError::BadRopeDim { rope_dim_count: 7, head_dim: 16 }
    );
    assert_eq!(
        config_error(GgufMeta { rope_dimension_count: Meta::Value(18), ..dense_meta() }),
        ConfigError::BadRopeDim { rope_dim_count: 18, head_dim: 16 }
    );
    assert_eq!(
        config_error(GgufMeta { token_embedding: Ok(vec![64]), ..dense_meta() }),
        ConfigError::EmbeddingNotTwoDimensional
    );
    assert_eq!(
        config_error(GgufMeta { token_embedding: Ok(vec![64, 0]), ..dense_meta() }),
        ConfigError::ZeroVocab
    );
    assert_eq!(
        config_error(GgufMeta { token_embedding: Ok(vec![64, 1 << 40]), ..dense_meta() }),
        ConfigError::VocabOverflow { value: 1 << 40 }
    );
    assert_eq!(
        config_error(GgufMeta { embedding_length: Meta::Value(0), ..dense_meta() }),
        ConfigError::ZeroModelDims
    );
    assert_eq!(
        config_error(GgufMeta { ssm_time_step_rank: Meta::Value(0), ..dense_meta() }),
        ConfigError::ZeroSsmDims
    );
    assert_eq!(
        config_error(GgufMeta { ssm_inner_size: Meta::Value(33), ..dense_meta() }),
        ConfigError::InnerSizeNotMultiple { inner_size: 33, num_v_heads: 4 }
    );
    assert_eq!(
        config_error(GgufMeta {
            ssm_group_count: Meta::Value(3),
            ..dense_meta()
        }),
        ConfigError::ValueHeadsNotMultiple { num_v_heads: 4, num_k_heads: 3 }
    );
    assert_eq!(
        config_error(GgufMeta { has_ssm_a: vec![false; 4], ..dense_meta() }),
        ConfigError::NoLinearLayers
    );
    assert_eq!(
        config_error(GgufMeta { expert_feed_forward_length: Meta::Value(0), ..moe_meta() }),
        ConfigError::ZeroExpertDims
    );
    assert_eq!(
        config_error(GgufMeta { expert_used_count: Meta::Value(17), ..moe_meta() }),
        ConfigError::BadExpertUsedCount { used: 17, count: 16 }
    );
}

#[test]
fn keys_are_named_after_the_architecture() {
    let name = |key| key_name("qwen35moe", key);
    assert_eq!(name(MetaKey::Architecture), "general.architecture");
    assert_eq!(name(MetaKey::TokenEmbedding), "token_embd.weight");
    assert_eq!(name(MetaKey::BlockCount), "qwen35moe.block_count");
    assert_eq!(name(MetaKey::HeadCountKv), "qwen35moe.attention.head_count_kv");
    assert_eq!(name(MetaKey::RopeFreqBase), "qwen35moe.rope.freq_base");
    assert_eq!(
        name(MetaKey::LayerNormRmsEpsilon),
        "qwen35moe.attention.layer_norm_rms_epsilon"
    );
    assert_eq!(
        name(MetaKey::ExpertSharedFeedForwardLength),
        "qwen35moe.expert_shared_feed_forward_length"
    );
    assert_eq!(name(MetaKey::SsmTimeStepRank), "qwen35moe.ssm.time_step_rank");
    assert_eq!(decay_tensor_name(17), "blk.17.ssm_a");
    let floats: Vec<MetaKey> = keys_to_read().into_iter().filter(|&k| is_float(k)).collect();
    assert_eq!(floats, vec![MetaKey::RopeFreqBase, MetaKey::LayerNormRmsEpsilon]);
}

#[test]
fn what_was_read_ends_up_where_it_belongs() {
    let keys = keys_to_read();
    let mut names: Vec<String> = keys.iter().map(|&k| key_name("a", k)).collect();
    names.sort_unstable();
    names.dedup();
    assert_eq!(names.len(), keys.len());
    let numbers: Vec<Meta> = (0..keys.len() as u32).map(Meta::Value).collect();
    let m = GgufMeta::gathered(Ok("a".to_string()), &numbers, Ok(vec![1]), vec![true]);
    let at = |key| Meta::Value(keys.iter().position(|&k| k == key).unwrap() as u32);
    assert_eq!(m.block_count, at(MetaKey::BlockCount));
    assert_eq!(m.key_length, at(MetaKey::KeyLength));
    assert_eq!(m.rope_freq_base, at(MetaKey::RopeFreqBase));
    assert_eq!(m.context_length, at(MetaKey::ContextLength));
    assert_eq!(m.feed_forward_length, at(MetaKey::FeedForwardLength));
    assert_eq!(m.ssm_state_size, at(MetaKey::SsmStateSize));
    assert_eq!((m.architecture, m.has_ssm_a), (Ok("a".to_string()), vec![true]));
}

#[test]
fn a_refused_checkpoint_is_refused_however_wide() {
    // Rejected for another reason, so its width does not matter.
    let meta = GgufMeta {
        architecture: Ok("llama".to_string()),
        ssm_group_count: Meta::Value(u32::MAX),
        ssm_state_size: Meta::Value(u32::MAX),
        ..dense_meta()
    };
    assert!(meta.check_dims_fit());
    assert!(matches!(
        Qwen35Config::from_gguf(&meta),
        Err(RocmlError::UnsupportedArchitecture { .. })
    ));
}
