//! Whole passes, and what they leave behind.

use rocml::error::{ConfigError, RocmlError};
use rocml::load_opts::{KvCacheMode, LoadOptions};
use rocml::qwen35::cache::hybrid::snapshot::AttnTransfer;
use rocml::qwen35::cache::hybrid::state::{GdnZero, Side, StateCopy, StatePart};
use rocml::qwen35::cache::hybrid::KvOptions;
use rocml::qwen35::cache::plane::GdnTransfer;
use rocml::qwen35::config::{GdnConfig, LayerKind, MoeConfig, Qwen35Config};
use rocml::qwen35::forward::layer::Profile;
use rocml::qwen35::forward::model::load::{
    size_expert_cache, validate_sink_window, BudgetReport, LayerCounts, LoadPlan,
};
use rocml::qwen35::forward::model::pass::Segment;
use rocml::qwen35::forward::model::prompt::PREFILL_CHUNK_SIZE;
use rocml::qwen35::forward::model::state::{CapturePlan, RewindPlan};
use rocml::qwen35::forward::model::{check_sizes_fit, Model, CHUNK_CAP};
use rocml::qwen35::forward::plan::{At, Buf, Op, OpKind, Probe, Step};
use rocml::qwen35::forward::rewind::RewindSlot;
use rocml::qwen35::moe::expert_cache::{ExpertCache, EXPERT_CACHE_SAFETY_MARGIN_BYTES};
use rocml::qwen35::moe::tensor::{ExpertTensorMeta, MoeFfnWeights};
use rocml::qwen35::weights::{
    AttnLayerWeights, Ffn, FfnWeights, GdnLayerWeights, LayerWeights,
};
use rocml::snapshot::types::{AttnLayerBytes, GdnLayerBytes, SnapshotData};

const L: LayerKind = LayerKind::LinearAttention;
const F: LayerKind = LayerKind::FullAttention;
const MOE: MoeConfig = MoeConfig {
    expert_count: 8,
    expert_used_count: 2,
    expert_ff_len: 32,
    shared_ff_len: 48,
};

fn config(moe: Option<MoeConfig>) -> Qwen35Config {
    let layer_kinds = vec![F, L, F, F];
    Qwen35Config {
        block_count: layer_kinds.len() as u32,
        embedding_length: 64,
        feed_forward_length: 128,
        head_count: 4,
        head_count_kv: 2,
        head_dim: 16,
        rope_freq_base: 0,
        rope_dim_count: 8,
        rms_eps: 0,
        context_length: 4096,
        vocab_size: 1000,
        layer_kinds,
        gdn: GdnConfig {
            conv_kernel: 4,
            num_k_heads: 2,
            num_v_heads: 4,
            head_k_dim: 8,
            head_v_dim: 8,
            key_dim: 16,
            value_dim: 32,
            conv_dim: 64,
        },
        moe,
    }
}

fn experts() -> MoeFfnWeights {
    MoeFfnWeights {
        gate: ExpertTensorMeta { m: 32, n: 64, per_expert_bytes: 100 },
        up: ExpertTensorMeta { m: 32, n: 64, per_expert_bytes: 120 },
        down: ExpertTensorMeta { m: 64, n: 32, per_expert_bytes: 110 },
    }
}

fn layers(cfg: &Qwen35Config) -> Vec<LayerWeights> {
    let ffn = match cfg.moe {
        Some(_) => Ffn::Moe(experts()),
        None => Ffn::Dense(FfnWeights::new(64, 128)),
    };
    cfg.layer_kinds
        .iter()
        .map(|k| match k {
            LayerKind::LinearAttention => LayerWeights::Gdn(GdnLayerWeights { ffn }),
            LayerKind::FullAttention => {
                LayerWeights::Attention(AttnLayerWeights { has_output_gate: true, ffn })
            }
        })
        .collect()
}

fn model(ctx: usize, moe: Option<MoeConfig>, cache: Option<ExpertCache>) -> Model {
    let cfg = config(moe);
    let kv = KvOptions { mode: KvCacheMode::Q8, sink: 4, window: 8, rot_sim: None };
    assert!(check_sizes_fit(&cfg, ctx));
    let w = layers(&cfg);
    match Model::new(cfg, w, ctx, kv, cache) {
        Ok(m) => m,
        Err(e) => panic!("unexpected {e:?}"),
    }
}

/// Runs a token to its end.
fn token(m: &mut Model, id: u32) -> Segment {
    let seg = m.forward_token(id, 1).unwrap();
    assert!(m.finish_pass());
    seg
}

/// Runs a chunk to its end.
fn chunk(m: &mut Model, ids: &[u32]) -> Segment {
    let seg = m.forward_chunk(ids, true, Profile::Off, false).unwrap().unwrap();
    assert!(m.finish_pass());
    seg
}

fn ops(seg: &Segment) -> Vec<Op> {
    seg.steps
        .iter()
        .filter_map(|s| match s {
            Step::Run { op } => Some(*op),
            _ => None,
        })
        .collect()
}

/// The positions every mixed layer's window starts at, as the steps show.
fn window_bases(seg: &Segment) -> Vec<u32> {
    ops(seg)
        .iter()
        .filter_map(|op| match op {
            Op::AttnPrefillMixed { ptrs, .. } | Op::AttnDecodeMixed { ptrs, .. } => {
                Some(ptrs.window_base)
            }
            _ => None,
        })
        .collect()
}

#[test]
fn parts_have_to_fit_together() {
    let kv = KvOptions { mode: KvCacheMode::Fp16, sink: 4, window: 8, rot_sim: None };
    let mut w = layers(&config(None));
    w.swap(0, 1);
    assert_eq!(
        Model::new(config(None), w, 64, kv, None).err(),
        Some(ConfigError::WeightKindMismatch { layer: 0 })
    );
    let mut w = layers(&config(None));
    w.pop();
    assert_eq!(
        Model::new(config(None), w, 64, kv, None).err(),
        Some(ConfigError::WeightKindMismatch { layer: 3 })
    );
    let w = layers(&config(Some(MOE)));
    assert_eq!(
        Model::new(config(None), w, 64, kv, None).err(),
        Some(ConfigError::MoeNoConfig)
    );
}

#[test]
fn a_token_goes_through_every_layer() {
    let mut m = model(64, None, None);
    let seg = m.forward_token(7, 2).unwrap();
    assert_eq!(seg.ids, vec![7]);
    assert_eq!(seg.layer, None);
    assert_eq!(m.position(), 0);
    assert!(m.pass_begun());
    assert!(m.finish_pass());
    assert_eq!(m.position(), 1);
    let indices: Vec<u32> = seg
        .steps
        .iter()
        .filter_map(|s| match s {
            Step::Layer { index } => Some(*index),
            _ => None,
        })
        .collect();
    assert_eq!(indices, vec![0, 1, 2, 3]);
    let all = ops(&seg);
    assert_eq!(all[0], Op::UploadTokens { tokens: 1 });
    assert_eq!(all[1], Op::Embedding { tokens: 1, hidden: 64 });
    assert_eq!(*all.last().unwrap(), Op::ReadLogits { vocab: 1000 });
}

#[test]
fn the_context_is_never_outgrown() {
    let mut m = model(20, None, None);
    assert_eq!(m.max_seq(), 20);
    for pos in 0..20 {
        assert_eq!(m.position(), pos);
        token(&mut m, 1);
    }
    assert!(matches!(
        m.forward_token(1, 1),
        Err(RocmlError::ContextOverflow { requested: 21, max_seq: 20 })
    ));
    assert!(matches!(
        m.forward_chunk(&[1, 2], true, Profile::Off, false),
        Err(RocmlError::ContextOverflow { requested: 22, max_seq: 20 })
    ));
    assert_eq!(m.position(), 20);
}

#[test]
fn profiling_changes_no_operation() {
    let mut off = model(64, None, None);
    let mut coarse = model(64, None, None);
    let mut fine = model(64, None, None);
    let a = off.forward_token(3, 1).unwrap();
    let b = coarse.forward_token_profiled(3, Profile::Coarse, 1).unwrap();
    let c = fine.forward_token_profiled(3, Profile::Fine, 1).unwrap();
    assert_eq!(ops(&a), ops(&b));
    assert_eq!(ops(&a), ops(&c));
    let entered = |seg: &Segment, kind: OpKind| {
        seg.steps.iter().filter(|s| **s == Step::Enter { kind }).count()
    };
    assert_eq!(entered(&a, OpKind::Layer), 0);
    assert_eq!(entered(&b, OpKind::Layer), 4);
    assert_eq!(entered(&c, OpKind::GdnConv), 1);
    let left = |seg: &Segment| seg.steps.iter().filter(|s| **s == Step::Leave).count();
    let opened =
        |seg: &Segment| seg.steps.iter().filter(|s| matches!(s, Step::Enter { .. })).count();
    assert_eq!(left(&b), opened(&b));
    assert_eq!(left(&c), opened(&c));
}

#[test]
fn chunks_are_bounded() {
    let mut m = model(2000, None, None);
    let long = vec![1; CHUNK_CAP as usize + 1];
    assert!(matches!(
        m.forward_chunk(&long, true, Profile::Off, false),
        Err(RocmlError::Config(ConfigError::ChunkTooLong { chunk_len: 513, cap: 512 }))
    ));
    assert!(m.forward_chunk(&[], true, Profile::Off, false).unwrap().is_none());
    assert_eq!(m.position(), 0);
    let seg = m.forward_chunk(&[1, 2, 3], false, Profile::Off, false).unwrap().unwrap();
    assert!(!ops(&seg).iter().any(|op| matches!(op, Op::ReadLogits { .. })));
    assert!(m.finish_pass());
    assert_eq!(m.position(), 3);
    let seg = chunk(&mut m, &[4, 5]);
    // Only the last row is normalised for the logits.
    assert!(ops(&seg).iter().any(|op| matches!(
        op,
        Op::Rmsnorm { x: At { buf: Buf::X, offset: 64 }, weight: Buf::OutputNorm, rows: 1, .. }
    )));
}

#[test]
fn a_prompt_in_chunks_ends_as_its_tokens_do() {
    let prompt: Vec<u32> = (0..1100).collect();
    let mut chunked = model(2000, None, None);
    let mut done = 0;
    let mut seen = Vec::new();
    while let Some((seg, end)) = chunked.forward_prompt(&prompt, done, Profile::Off).unwrap() {
        assert!(end - done <= PREFILL_CHUNK_SIZE as usize);
        let wants = ops(&seg).iter().any(|op| matches!(op, Op::ReadLogits { .. }));
        assert_eq!(wants, end == prompt.len());
        seen.extend(seg.ids);
        done = end;
        assert!(chunked.finish_pass());
        assert_eq!(chunked.position() as usize, done);
    }
    assert_eq!(seen, prompt);
    let mut serial = model(2000, None, None);
    for &t in &prompt {
        token(&mut serial, t);
    }
    assert_eq!(chunked.position(), serial.position());
    let a = chunked.forward_token(1, 1).unwrap();
    let b = serial.forward_token(1, 1).unwrap();
    assert_eq!(a.steps, b.steps);
    assert_eq!(window_bases(&a), vec![4 + 8 * 137]);
}

#[test]
fn only_the_last_chunk_is_recorded() {
    let prompt: Vec<u32> = (0..600).collect();
    let mut m = model(2000, None, None);
    let records = |seg: &Segment| {
        seg.steps.iter().filter(|s| matches!(s, Step::Record { .. })).count()
    };
    let (first, done) =
        m.forward_prompt_chunked_captured(&prompt, 0, Profile::Off).unwrap().unwrap();
    assert_eq!((records(&first), done), (0, 512));
    assert!(m.finish_pass());
    let (last, done) =
        m.forward_prompt_chunked_captured(&prompt, done, Profile::Off).unwrap().unwrap();
    assert_eq!(done, 600);
    // Four of the linear-attention layer, five of each feed-forward part.
    assert_eq!(records(&last), 4 + 4 * 5);
    let left = Step::Record { probe: Probe::ResidPost, buf: Buf::X, rows: 88, cols: 64 };
    assert_eq!(last.steps.iter().filter(|s| **s == left).count(), 4);
}

#[test]
fn a_reset_model_is_a_fresh_one() {
    let mut m = model(64, None, None);
    chunk(&mut m, &(0..40).collect::<Vec<u32>>());
    m.forward_token(1, 1).unwrap();
    assert_eq!(m.reset(), vec![GdnZero { layer: 1, conv_len: 192, state_len: 256 }]);
    assert!(!m.pass_begun());
    assert_eq!(m.position(), 0);
    let mut fresh = model(64, None, None);
    assert_eq!(m.forward_token(5, 1).unwrap().steps, fresh.forward_token(5, 1).unwrap().steps);
}

/// The state that a rewind point of the model keeps, in two parts.
fn state_copies(from: Side, to: Side) -> Vec<StateCopy> {
    let gdn = StatePart::Gdn { conv_len: 192, state_len: 256 };
    let window = StatePart::Window { window_elems: 2 * 8 * 16 };
    vec![
        StateCopy { layer: 1, part: gdn, from, to },
        StateCopy { layer: 2, part: window, from, to },
    ]
}

fn rewound(slot: RewindSlot, position: u32) -> Option<RewindPlan> {
    Some(RewindPlan { slot, position, copies: state_copies(Side::Saved, Side::Live) })
}

#[test]
fn rewinding_gives_back_the_saved_state() {
    let ids: Vec<u32> = (0..40).collect();
    let mut m = model(64, None, None);
    chunk(&mut m, &ids[..20]);
    assert_eq!(
        m.save_rewind_point(RewindSlot::StableBoundary, vec![1]).err(),
        Some(ConfigError::RewindTokens { found: 1, position: 20 })
    );
    assert_eq!(
        m.save_rewind_point(RewindSlot::StableBoundary, ids[..20].to_vec()),
        Ok(state_copies(Side::Live, Side::Saved))
    );
    chunk(&mut m, &ids[20..30]);
    m.save_rewind_point(RewindSlot::EndOfTurn, ids[..30].to_vec()).unwrap();
    chunk(&mut m, &ids[30..]);

    assert_eq!(m.rewind_plan(&[9, 9]), None);
    assert_eq!(m.rewind_to_prefix(&[9, 9]), None);
    // Planning moves nothing yet.
    assert_eq!(m.rewind_plan(&ids), rewound(RewindSlot::EndOfTurn, 30));
    assert_eq!(m.position(), 40);
    assert_eq!(m.rewind_to_prefix(&ids), rewound(RewindSlot::EndOfTurn, 30));
    assert_eq!(m.position(), 30);
    let mut changed = ids[..25].to_vec();
    changed.push(999);
    assert_eq!(m.rewind_to_prefix(&changed), rewound(RewindSlot::StableBoundary, 20));
    let seg = token(&mut m, 20);
    let mut other = model(64, None, None);
    chunk(&mut other, &ids[..20]);
    assert_eq!(token(&mut other, 20).steps, seg.steps);
}

#[test]
fn a_forgotten_rewind_point_serves_nothing() {
    let mut m = model(64, None, None);
    chunk(&mut m, &[1, 2, 3]);
    m.save_rewind_point(RewindSlot::StableBoundary, vec![1, 2, 3]).unwrap();
    m.save_rewind_point(RewindSlot::EndOfTurn, vec![1, 2, 3]).unwrap();
    m.forget_rewind_point(RewindSlot::EndOfTurn);
    assert_eq!(m.rewind_to_prefix(&[1, 2, 3, 4]), rewound(RewindSlot::StableBoundary, 3));
    m.forget_rewind_point(RewindSlot::StableBoundary);
    assert_eq!(m.rewind_to_prefix(&[1, 2, 3, 4]), None);
}

#[test]
fn a_fresh_sequence_has_no_rewind_points() {
    let mut m = model(64, None, None);
    chunk(&mut m, &[1, 2, 3]);
    m.save_rewind_point(RewindSlot::EndOfTurn, vec![1, 2, 3]).unwrap();
    m.reset();
    assert_eq!(m.rewind_to_prefix(&[1, 2, 3, 4]), None);
}

#[test]
fn a_failed_pass_leaves_the_position() {
    let ids: Vec<u32> = (0..30).collect();
    let mut m = model(64, None, None);
    assert!(!m.finish_pass());
    assert!(!m.give_up_pass(4));
    chunk(&mut m, &ids[..10]);
    m.save_rewind_point(RewindSlot::EndOfTurn, ids[..10].to_vec()).unwrap();
    // Nothing was appended before it failed.
    let failed = m.forward_chunk(&ids[10..], true, Profile::Off, false).unwrap().unwrap();
    assert!(m.give_up_pass(0));
    assert_eq!(m.position(), 10);
    assert!(m.is_settled());
    assert!(!m.finish_pass());
    assert_eq!(m.position(), 10);
    // The window of the mixed layer, the third one, had been moved twice.
    m.forward_chunk(&ids[10..], true, Profile::Off, false).unwrap().unwrap();
    assert!(m.give_up_pass(3));
    assert_eq!(m.position(), 10);
    assert!(!m.is_settled());
    assert_eq!(captured_base(&m, &ids[..10]), 4 + 8 * 3);
    // Going back overwrites what the pass has left.
    assert!(m.rewind_to_prefix(&ids).is_some());
    assert!(m.is_settled());
    assert_eq!(captured_base(&m, &ids[..10]), 4);
    let again = chunk(&mut m, &ids[10..]);
    assert_eq!(again.steps, failed.steps);
    assert_eq!(m.position(), 30);
}

/// Where the window of the only mixed layer starts.
fn captured_base(m: &Model, ids: &[u32]) -> u32 {
    let plan = m.capture_snapshot(ids.to_vec()).unwrap();
    let bases: Vec<u32> = plan
        .transfers
        .attn
        .iter()
        .filter_map(|t| match t {
            Some(AttnTransfer::Mixed(x)) => Some(x.window_base),
            _ => None,
        })
        .collect();
    assert_eq!(bases.len(), 1);
    bases[0]
}

#[test]
fn a_failed_token_can_be_tried_again() {
    let ids: Vec<u32> = (0..12).collect();
    for appended in 0..5 {
        let mut m = model(64, None, None);
        chunk(&mut m, &ids);
        // The token moves the window.
        let failed = m.forward_token(7, 1).unwrap();
        assert!(m.give_up_pass(appended));
        assert!(m.is_settled());
        assert_eq!(captured_base(&m, &ids), if appended > 2 { 12 } else { 4 });
        let again = m.forward_token(7, 1).unwrap();
        // An eviction that was carried out is not asked for again.
        let evicts = |seg: &Segment| {
            ops(seg).iter().filter(|op| matches!(op, Op::QuantizeEvictK { .. })).count()
        };
        assert_eq!(evicts(&failed), 1);
        assert_eq!(evicts(&again), if appended > 2 { 0 } else { 1 });
        assert!(m.finish_pass());
        assert_eq!(m.position(), 13);
    }
}

#[test]
fn a_chunk_moves_the_position_before_its_logits() {
    let mut m = model(64, None, None);
    let advance = |seg: &Segment| {
        let at = seg.steps.iter().position(|s| *s == Step::Advance);
        let read = seg
            .steps
            .iter()
            .position(|s| matches!(s, Step::Run { op: Op::ReadLogits { .. } }));
        (at, read)
    };
    let (at, read) = advance(&chunk(&mut m, &[1, 2, 3]));
    assert!(at.unwrap() < read.unwrap());
    // Its logits failing changes nothing any more.
    assert!(!m.give_up_pass(4));
    assert_eq!(m.position(), 3);
    let (at, read) = advance(&token(&mut m, 4));
    assert!(read.unwrap() < at.unwrap());
    let quiet = m.forward_chunk(&[5], false, Profile::Off, false).unwrap().unwrap();
    assert_eq!(quiet.steps.iter().filter(|s| **s == Step::Advance).count(), 1);
}

#[test]
fn appending_operations_are_told_apart() {
    let mut m = model(64, None, None);
    let seg = chunk(&mut m, &(0..40).collect::<Vec<u32>>());
    let mut layer = None;
    let mut seen = Vec::new();
    for step in &seg.steps {
        match step {
            Step::Layer { index } => layer = Some(*index),
            Step::Run { op } if op.appends() && seen.last() != Some(&layer) => seen.push(layer),
            _ => {}
        }
    }
    assert_eq!(seen, vec![Some(0), Some(2), Some(3)]);
}

#[test]
fn a_pass_that_fails_at_a_router_can_be_tried_again() {
    let mut m = model(64, Some(MOE), None);
    let first = m.forward_token(3, 1).unwrap();
    m.routed_row(&[2, 5]).unwrap();
    // A pass that still waits has not run to its end.
    assert!(!m.finish_pass());
    assert!(m.pass_begun());
    assert!(m.give_up_pass(1));
    assert_eq!((m.position(), m.pending()), (0, None));
    assert_eq!(m.forward_token(3, 1).unwrap().steps, first.steps);
}

#[test]
fn a_failed_pass_leaves_no_expert_without_its_bytes() {
    let mut m = model(64, Some(MOE), ExpertCache::new(8, 100, 120, 110, false));
    m.forward_token(3, 1).unwrap();
    for _ in 0..4 {
        m.routed_row(&[2, 5]).unwrap();
    }
    assert!(m.finish_pass());
    assert_eq!(m.moe_cache_stats(), Some((0, 8, 8, 8)));
    // Everything was cached: failing loses nothing.
    m.forward_token(3, 1).unwrap();
    m.routed_row(&[2, 5]).unwrap();
    assert!(m.give_up_pass(1));
    assert_eq!(m.moe_cache_stats(), Some((2, 8, 8, 8)));
    // An expert was given a slot, and its bytes may not have come.
    m.forward_token(3, 1).unwrap();
    m.routed_row(&[2, 6]).unwrap();
    assert!(m.give_up_pass(1));
    assert_eq!(m.moe_cache_stats(), Some((3, 9, 0, 8)));
    m.forward_token(3, 1).unwrap();
    let (plan, _) = m.routed_row(&[2, 6]).unwrap();
    let uploads =
        plan.ops.iter().filter(|op| matches!(op, Op::UploadExpert { .. })).count();
    assert!(uploads > 0);
    assert_eq!(m.moe_cache_stats(), Some((3, 11, 2, 8)));
}

fn snapshot(plan: &CapturePlan) -> SnapshotData {
    let attn = plan
        .transfers
        .attn
        .iter()
        .map(|t| {
            t.as_ref().map(|t| match t {
                AttnTransfer::Dense(d) => {
                    AttnLayerBytes::DenseF16 { k: vec![0; d.len], v: vec![0; d.len] }
                }
                AttnTransfer::Mixed(m) => AttnLayerBytes::Mixed {
                    sink_k: vec![0; m.lens.sink],
                    sink_v: vec![0; m.lens.sink],
                    window_k: vec![0; m.lens.window],
                    window_v: vec![0; m.lens.window],
                    bulk_k_codes: vec![0; m.lens.bulk_k_codes],
                    bulk_k_scales: vec![0; m.lens.bulk_k_scales],
                    bulk_v_codes: vec![0; m.lens.bulk_v_codes],
                    bulk_v_scales: vec![0; m.lens.bulk_v_scales],
                    window_base: m.window_base,
                    v_bits: m.v_bits,
                },
            })
        })
        .collect();
    let gdn = plan
        .transfers
        .gdn
        .iter()
        .map(|t| {
            t.map(|t| GdnLayerBytes {
                conv_state: vec![0; t.conv_len],
                state: vec![0; t.state_len],
            })
        })
        .collect();
    SnapshotData { position: plan.position, token_ids: plan.token_ids.clone(), gdn, attn }
}

#[test]
fn restoring_gives_back_the_captured_state() {
    let ids: Vec<u32> = (0..23).collect();
    let mut m = model(64, None, None);
    chunk(&mut m, &ids);
    assert_eq!(
        m.capture_snapshot(vec![1]).err(),
        Some(ConfigError::SnapshotTokens { found: 1, position: 23 })
    );
    let plan = m.capture_snapshot(ids.clone()).unwrap();
    let transfer = Some(GdnTransfer { conv_len: 192, state_len: 256 });
    assert_eq!(plan.transfers.gdn, vec![None, transfer, None, None]);
    let snap = snapshot(&plan);
    let bytes: usize = snap.gdn.iter().flatten().map(|g| g.byte_size()).sum::<usize>()
        + snap.attn.iter().flatten().map(|a| a.byte_size()).sum::<usize>();
    assert_eq!(m.snapshot_byte_size(), Some(bytes));
    let next = token(&mut m, 7);

    let mut other = model(64, None, None);
    chunk(&mut other, &[5, 5, 5]);
    other.save_rewind_point(RewindSlot::EndOfTurn, vec![5, 5, 5]).unwrap();
    // Planning moves nothing yet.
    assert_eq!(other.restore_plan(&snap).unwrap().transfers.gdn, plan.transfers.gdn);
    assert_eq!(other.restore_plan(&snap).unwrap().error, None);
    assert_eq!(other.position(), 3);
    let transfers = other.restore_snapshot(&snap).unwrap();
    assert_eq!(transfers.gdn, plan.transfers.gdn);
    assert_eq!(transfers.attn.len(), 4);
    assert_eq!(other.position(), 23);
    // The saved state is no longer in the buffers.
    assert_eq!(other.rewind_to_prefix(&[5, 5, 5, 5]), None);
    assert_eq!(token(&mut other, 7).steps, next.steps);

    let mut short = model(20, None, None);
    assert!(matches!(
        short.restore_snapshot(&snap),
        Err(RocmlError::ContextOverflow { requested: 23, max_seq: 20 })
    ));
    let odd = SnapshotData { gdn: vec![], ..snapshot(&plan) };
    assert!(matches!(
        other.restore_snapshot(&odd),
        Err(RocmlError::Config(ConfigError::LayerCount { gdn_found: 0, .. }))
    ));
    assert_eq!(other.position(), 24);
}

#[test]
fn a_bad_layer_leaves_the_layers_before_it_restored() {
    let ids: Vec<u32> = (0..23).collect();
    let mut m = model(64, None, None);
    chunk(&mut m, &ids);
    let mut snap = snapshot(&m.capture_snapshot(ids.clone()).unwrap());
    // The mixed layer is the third, the bad one the fourth.
    snap.attn[3] = None;
    let mut other = model(64, None, None);
    chunk(&mut other, &[5, 5, 5]);
    other.save_rewind_point(RewindSlot::EndOfTurn, vec![5, 5, 5]).unwrap();
    let plan = other.restore_plan(&snap).unwrap();
    assert_eq!(plan.error, Some(ConfigError::AttnKindMismatch));
    assert_eq!((plan.transfers.gdn.len(), plan.transfers.attn.len()), (4, 3));
    assert!(matches!(
        other.restore_snapshot(&snap),
        Err(RocmlError::Config(ConfigError::AttnKindMismatch))
    ));
    assert_eq!(other.position(), 3);
    assert_eq!(captured_base(&other, &[5, 5, 5]), 20);
    assert!(!other.is_settled());
    // The saved state is no longer in the buffers.
    assert_eq!(other.rewind_to_prefix(&[5, 5, 5, 5]), None);
    other.reset();
    assert!(other.is_settled());
    assert_eq!(captured_base(&other, &[]), 4);
}

#[test]
fn a_restored_window_decides_whether_a_pass_may_begin() {
    let ids: Vec<u32> = (0..23).collect();
    let mut m = model(64, None, None);
    chunk(&mut m, &ids);
    let mut snap = snapshot(&m.capture_snapshot(ids.clone()).unwrap());
    assert!(m.restore_snapshot(&snap).is_ok());
    assert!(m.is_settled());
    // One block fewer than a sequence of that length has.
    if let Some(AttnLayerBytes::Mixed {
        bulk_k_codes,
        bulk_k_scales,
        bulk_v_codes,
        bulk_v_scales,
        window_base,
        ..
    }) = &mut snap.attn[2]
    {
        let blocks = (*window_base as usize - 4) / 8;
        let fewer = |n: usize| n / blocks * (blocks - 1);
        bulk_k_codes.truncate(fewer(bulk_k_codes.len()));
        bulk_k_scales.truncate(fewer(bulk_k_scales.len()));
        bulk_v_codes.truncate(fewer(bulk_v_codes.len()));
        bulk_v_scales.truncate(fewer(bulk_v_scales.len()));
        *window_base -= 8;
    }
    assert!(m.restore_snapshot(&snap).is_ok());
    assert_eq!(m.position(), 23);
    assert!(!m.is_settled());
}

#[test]
fn a_pass_waits_at_every_router() {
    let mut m = model(64, Some(MOE), ExpertCache::new(4, 100, 120, 110, false));
    assert_eq!(m.routed_row(&[0, 1]).err(), Some(ConfigError::MoeNoLayer));
    let mut seg = m.forward_token(3, 1).unwrap();
    for layer in 0..4 {
        assert_eq!(seg.layer, Some(layer));
        assert_eq!(m.pending().unwrap().layer, layer);
        assert_eq!(m.position(), 0);
        assert_eq!(
            m.routed_row(&[1]).err(),
            Some(ConfigError::RoutingLen { found: 1, expected: 2 })
        );
        assert_eq!(m.routed_chunk(&[1], &[1]).err(), Some(ConfigError::MoeNoLayer));
        let (plan, next) = m.routed_row(&[2, 5]).unwrap();
        assert_eq!(plan.experts, vec![2, 5]);
        seg = next;
    }
    assert_eq!(seg.layer, None);
    assert_eq!(m.pending(), None);
    assert!(m.finish_pass());
    assert_eq!(m.position(), 1);
    assert_eq!(m.moe_cache_stats(), Some((0, 8, 4, 4)));
    assert_eq!(model(64, None, None).moe_cache_stats(), None);
}

#[test]
fn a_refused_routing_changes_nothing() {
    let mut m = model(64, Some(MOE), None);
    m.forward_token(3, 1).unwrap();
    let before = m.pending();
    assert_eq!(
        m.routed_row(&[2, 9]).err(),
        Some(ConfigError::ExpertOutOfRange { expert: 9, expert_count: 8 })
    );
    assert_eq!(m.pending(), before);
    assert!(m.routed_row(&[2, 3]).is_ok());
}

#[test]
fn chunks_are_routed_as_a_whole() {
    let mut m = model(64, Some(MOE), None);
    let mut seg = m.forward_chunk(&[1, 2, 3], true, Profile::Off, false).unwrap().unwrap();
    for layer in 0..4 {
        assert_eq!(seg.layer, Some(layer));
        assert_eq!(m.routed_row(&[1, 2]).err(), Some(ConfigError::MoeNoLayer));
        assert_eq!(
            m.routed_chunk(&[1, 2, 1, 2, 1, 2], &[0; 5]).err(),
            Some(ConfigError::RoutingLen { found: 5, expected: 6 })
        );
        let (plan, next) = m.routed_chunk(&[1, 2, 1, 2, 1, 2], &[0; 6]).unwrap();
        assert_eq!(plan.experts, vec![1, 2]);
        seg = next;
    }
    assert_eq!(seg.layer, None);
    assert!(m.finish_pass());
    assert_eq!(m.position(), 3);
}

#[test]
fn diagnostic_chunks_are_routed_row_by_row() {
    let mut m = model(64, Some(MOE), None);
    m.forward_chunk(&[1, 2], true, Profile::Off, true).unwrap();
    let mut rounds = 0;
    while m.pending().is_some() {
        let row = m.pending().unwrap().row;
        assert_eq!(row, rounds % 2);
        m.routed_row(&[0, 1]).unwrap();
        rounds += 1;
    }
    assert_eq!(rounds, 8);
    assert!(m.finish_pass());
    assert_eq!(m.position(), 2);
}

fn options(ctx: usize) -> LoadOptions {
    LoadOptions {
        ctx,
        kv_cache: KvCacheMode::Q8,
        kv_sink: 4,
        kv_window: 8,
        kv_rot_sim: None,
        kv_rot_sim_k: false,
        use_mmq: true,
        moe_cache_slots: None,
        moe_overlap: true,
    }
}

fn fits() -> BudgetReport {
    BudgetReport { fits: true, suggested_max_ctx: 0, breakdown: String::new() }
}

#[test]
fn sink_and_window_have_to_fit_the_sequence() {
    assert_eq!(validate_sink_window(4, 8, 13), Ok(()));
    for (sink, window, ctx) in [(0, 8, 64), (4, 0, 64), (4, 8, 12), (4, 65536, 1 << 20)] {
        assert_eq!(
            validate_sink_window(sink, window, ctx),
            Err(ConfigError::SinkWindow { sink, window, ctx })
        );
    }
}

#[test]
fn counted_layers_are_the_ones_made() {
    let plan = LoadPlan::new(&config(None), &options(64)).unwrap();
    assert_eq!(plan.counts, LayerCounts { attn: 3, boundary: 2, mixed: 1 });
    assert_eq!((plan.v_bits, plan.ctx), (8, 64));
    let narrow = LoadOptions { kv_cache: KvCacheMode::Q4Mixed, ..options(1 << 30) };
    let plan = LoadPlan::new(&config(None), &narrow).unwrap();
    assert_eq!((plan.v_bits, plan.ctx), (4, 4096));
    let dense = LoadOptions { kv_cache: KvCacheMode::Fp16, kv_window: 0, ..options(64) };
    let plan = LoadPlan::new(&config(None), &dense).unwrap();
    assert_eq!(plan.counts, LayerCounts { attn: 3, boundary: 2, mixed: 0 });
}

#[test]
fn loading_refuses_what_cannot_be_had() {
    let cfg = || config(None);
    let w = || layers(&config(None));
    let m = Model::load(cfg(), w(), &options(64), fits(), 0).unwrap();
    assert_eq!(m.max_seq(), 64);
    assert_eq!(m.config().vocab_size, 1000);
    assert!(matches!(
        Model::load(cfg(), w(), &options(12), fits(), 0).err(),
        Some(RocmlError::Config(ConfigError::SinkWindow { sink: 4, window: 8, ctx: 12 }))
    ));
    let over =
        BudgetReport { fits: false, suggested_max_ctx: 32, breakdown: "weights".to_string() };
    match Model::load(cfg(), w(), &options(64), over, 0).err() {
        Some(RocmlError::VramBudget { requested_ctx, suggested_max_ctx, breakdown }) => {
            assert_eq!((requested_ctx, suggested_max_ctx), (64, 32));
            assert_eq!(breakdown, "weights");
        }
        other => panic!("unexpected {other:?}"),
    }
    let huge = Qwen35Config { head_dim: u32::MAX, ..config(None) };
    assert!(matches!(
        Model::load(huge, w(), &options(64), fits(), 0).err(),
        Some(RocmlError::Config(ConfigError::SizeOverflow))
    ));
}

#[test]
fn free_memory_sizes_the_expert_cache() {
    let w = layers(&config(Some(MOE)));
    let free = EXPERT_CACHE_SAFETY_MARGIN_BYTES + 5 * 330 + 7;
    let cache = size_expert_cache(&w, 8, None, free, true).unwrap().unwrap();
    assert_eq!(cache.capacity(), 5);
    assert!(cache.overlap_enabled());
    let cache = size_expert_cache(&w, 8, Some(3), free, false).unwrap().unwrap();
    assert_eq!(cache.capacity(), 3);
    assert!(size_expert_cache(&w, 8, None, 0, true).unwrap().is_none());
    let all = size_expert_cache(&w, 8, None, free * 10, true).unwrap().unwrap();
    assert_eq!(all.capacity(), 32);
    let m = Model::load(config(Some(MOE)), w, &options(64), fits(), free).unwrap();
    assert_eq!(m.moe_cache_stats(), Some((0, 0, 0, 5)));
}
