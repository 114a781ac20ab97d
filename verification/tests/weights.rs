//! Tensors of a checkpoint.

use rocml::error::{ConfigError, TensorAxis};
use rocml::qwen35::config::{GdnConfig, LayerKind, MoeConfig, Qwen35Config};
use rocml::qwen35::model_weights::{
    ExpertTensors, LayerTensors, ModelWeights, StoredExperts,
};
use rocml::qwen35::weights::{
    attn_layer_loads, gdn_layer_loads, has_output_gate, layer_tensor_name, model_level_loads, Ffn,
    FfnWeights, GdnLayerWeights, LayerWeights, LinearWeight, TensorLoad, TensorRole,
};

fn config(moe: Option<MoeConfig>) -> Qwen35Config {
    Qwen35Config {
        block_count: 2,
        embedding_length: 64,
        feed_forward_length: 128,
        head_count: 4,
        head_count_kv: 2,
        head_dim: 16,
        rope_freq_base: 0,
        rope_dim_count: 8,
        rms_eps: 0,
        context_length: 4096,
        vocab_size: 1000,
        layer_kinds: vec![LayerKind::LinearAttention, LayerKind::FullAttention],
        gdn: GdnConfig {
            conv_kernel: 4,
            num_k_heads: 2,
            num_v_heads: 4,
            head_k_dim: 8,
            head_v_dim: 8,
            key_dim: 16,
            value_dim: 32,
            conv_dim: 64,
        },
        moe,
    }
}

fn find<'a>(loads: &'a [TensorLoad], name: &str) -> &'a TensorLoad {
    loads.iter().find(|t| t.name == name).unwrap()
}

#[test]
fn tensor_names_tell_layers_apart() {
    assert_eq!(layer_tensor_name(3, ".ssm_a"), "blk.3.ssm_a");
    let names: Vec<String> = (0..120).map(|i| layer_tensor_name(i, ".attn_q.weight")).collect();
    for (i, a) in names.iter().enumerate() {
        assert!(names[i + 1..].iter().all(|b| a != b));
    }
}

#[test]
fn query_rows_decide_the_output_gate() {
    assert_eq!(has_output_gate(&[64, 128], 128), Ok(false));
    assert_eq!(has_output_gate(&[64, 256], 128), Ok(true));
    assert_eq!(has_output_gate(&[64], 128), Err(ConfigError::QueryNotTwoDimensional));
    assert_eq!(
        has_output_gate(&[64, 1 << 40], 128),
        Err(ConfigError::QueryRowsOverflow { rows: 1 << 40 })
    );
    assert_eq!(
        has_output_gate(&[64, 200], 128),
        Err(ConfigError::QueryRows { rows: 200, q_dim: 128 })
    );
}

#[test]
fn full_attention_layer_tensors() {
    let gated = attn_layer_loads(&config(None), 1, true);
    assert_eq!(gated.len(), 11);
    let q = find(&gated, "blk.1.attn_q.weight");
    assert_eq!((q.role, q.m, q.n), (TensorRole::Linear, 128, 64));
    let out = find(&gated, "blk.1.attn_output.weight");
    assert_eq!((out.m, out.n), (64, 64));
    let norm = find(&gated, "blk.1.attn_k_norm.weight");
    assert_eq!((norm.role, norm.m), (TensorRole::Vector, 16));
    let down = find(&gated, "blk.1.ffn_down.weight");
    assert_eq!((down.m, down.n), (64, 128));
    let plain = attn_layer_loads(&config(None), 1, false);
    assert_eq!(find(&plain, "blk.1.attn_q.weight").m, 64);
}

#[test]
fn linear_attention_layer_tensors() {
    let loads = gdn_layer_loads(&config(None), 0);
    assert_eq!(loads.len(), 14);
    let conv = find(&loads, "blk.0.ssm_conv1d.weight");
    assert_eq!((conv.role, conv.m, conv.n), (TensorRole::MatrixF32, 64, 4));
    assert_eq!(find(&loads, "blk.0.ssm_a").m, 4);
    assert_eq!(find(&loads, "blk.0.ssm_norm.weight").m, 8);
}

#[test]
fn experts_replace_the_dense_part() {
    let moe = MoeConfig {
        expert_count: 8,
        expert_used_count: 2,
        expert_ff_len: 32,
        shared_ff_len: 48,
    };
    let loads = gdn_layer_loads(&config(Some(moe)), 0);
    assert_eq!(loads.len(), 19);
    assert!(loads.iter().all(|t| t.name != "blk.0.ffn_gate.weight"));
    let router = find(&loads, "blk.0.ffn_gate_inp.weight");
    assert_eq!((router.role, router.m, router.n), (TensorRole::MatrixF32, 8, 64));
    let down = find(&loads, "blk.0.ffn_down_exps.weight");
    assert_eq!((down.role, down.m, down.n), (TensorRole::Experts { count: 8 }, 64, 32));
}

#[test]
fn the_embedding_serves_as_output_projection() {
    let tied = model_level_loads(&config(None), false);
    assert_eq!(tied[2].name, "token_embd.weight");
    assert_eq!(tied[0].role, TensorRole::MatrixF16);
    let own = model_level_loads(&config(None), true);
    assert_eq!(own[2].name, "output.weight");
    assert_eq!((own[2].m, own[2].n), (1000, 64));
}

#[test]
fn both_kinds_of_layer_have_a_feed_forward_part() {
    let ffn = FfnWeights::new(64, 128);
    assert_eq!(ffn.down, LinearWeight { m: 64, n: 128 });
    assert_eq!(ffn.up, LinearWeight { m: 128, n: 64 });
    let w = LayerWeights::Gdn(GdnLayerWeights { ffn: Ffn::Dense(ffn) });
    assert_eq!(w.ffn(), Ffn::Dense(ffn));
}

fn stored(n: u64, m: u64) -> StoredExperts {
    StoredExperts {
        shape: vec![n, m, 8],
        block_elements: 32,
        block_bytes: 18,
        data_len: (n * m / 32) as usize * 18 * 8,
    }
}

fn tensors(rows: u64) -> LayerTensors {
    let experts = ExpertTensors { gate: stored(64, 32), up: stored(64, 32), down: stored(32, 64) };
    LayerTensors { query_shape: vec![64, rows], experts: Some(experts) }
}

#[test]
fn loaded_weights_follow_the_layer_kinds() {
    let cfg = config(None);
    let dense = |rows| LayerTensors { query_shape: vec![64, rows], experts: None };
    let w = ModelWeights::load(&cfg, true, &vec![dense(0), dense(128)]).unwrap();
    assert_eq!(w.loads.len(), 3 + 14 + 11);
    assert_eq!(w.loads[0].name, "token_embd.weight");
    assert_eq!(w.loads[3].name, "blk.0.attn_norm.weight");
    match (w.layers[0], w.layers[1]) {
        (LayerWeights::Gdn(_), LayerWeights::Attention(a)) => assert!(a.has_output_gate),
        other => panic!("unexpected {other:?}"),
    }
    assert_eq!(
        ModelWeights::load(&cfg, true, &vec![dense(0), dense(7)]).err(),
        Some(ConfigError::QueryRows { rows: 7, q_dim: 64 })
    );
}

#[test]
fn loaded_experts_are_checked() {
    let moe = MoeConfig {
        expert_count: 8,
        expert_used_count: 2,
        expert_ff_len: 32,
        shared_ff_len: 48,
    };
    let cfg = config(Some(moe));
    let w = ModelWeights::load(&cfg, false, &vec![tensors(64), tensors(64)]).unwrap();
    match w.layers[1].ffn() {
        Ffn::Moe(m) => {
            assert_eq!(m.down.per_expert_bytes, 64 * 32 / 32 * 18);
            assert_eq!((m.down.m, m.down.n), (64, 32));
        }
        other => panic!("unexpected {other:?}"),
    }
    let mut wrong = tensors(64);
    wrong.experts.as_mut().unwrap().up.shape[1] = 1 << 40;
    assert_eq!(
        ModelWeights::load(&cfg, false, &vec![wrong, tensors(64)]).err(),
        Some(ConfigError::TensorDimOverflow { axis: TensorAxis::M, value: 1 << 40 })
    );
}
