//! What each part of a layer asks of the device.

use rocml::error::ConfigError;
use rocml::load_opts::{KvCacheMode, KvDtype};
use rocml::qwen35::cache::hybrid::AttnLayerCache;
use rocml::qwen35::cache::mixed::MixedAttnPlane;
use rocml::qwen35::cache::plane::AttnPlane;
use rocml::qwen35::config::{GdnConfig, LayerKind, MoeConfig, Qwen35Config};
use rocml::qwen35::forward::attention::{attention_step, attention_step_cost};
use rocml::qwen35::forward::attention_chunk::{
    attention_chunk_step, attention_chunk_step_mixed, attn_prefill_cost, attn_prefill_mixed_cost,
};
use rocml::qwen35::forward::dims::check_dims_fit;
use rocml::qwen35::forward::ffn::{ffn_chunk_step, ffn_step, ffn_step_cost};
use rocml::qwen35::forward::gdn::{gdn_layer_step, gdn_layer_step_cost};
use rocml::qwen35::forward::gdn_chunk::gdn_chunk_step;
use rocml::qwen35::forward::gdn_chunkwise::gdn_chunkwise_step;
use rocml::qwen35::forward::layer::{ffn_cost_dispatch, ffn_dispatch, PassParams, Profile};
use rocml::qwen35::forward::moe::{moe_ffn_step, moe_ffn_step_cost, moe_route_step};
use rocml::qwen35::forward::moe_chunk::{moe_chunk_route_step, moe_ffn_chunk_step};
use rocml::qwen35::forward::plan::{start, At, Buf, Linear, Op, OpKind, Probe, Step, Term};
use rocml::qwen35::forward::scratch::{ChunkScratch, MoeChunkScratch, MoeScratch, Scratch};
use rocml::qwen35::moe::expert_cache::ExpertCache;
use rocml::qwen35::moe::tensor::{ExpertTensorMeta, MoeFfnWeights};
use rocml::qwen35::weights::{Ffn, FfnWeights};

const MOE: MoeConfig = MoeConfig {
    expert_count: 8,
    expert_used_count: 2,
    expert_ff_len: 32,
    shared_ff_len: 48,
};

fn config() -> Qwen35Config {
    Qwen35Config {
        block_count: 2,
        embedding_length: 64,
        feed_forward_length: 128,
        head_count: 4,
        head_count_kv: 2,
        head_dim: 16,
        rope_freq_base: 0,
        rope_dim_count: 8,
        rms_eps: 0,
        context_length: 4096,
        vocab_size: 1000,
        layer_kinds: vec![LayerKind::LinearAttention, LayerKind::FullAttention],
        gdn: GdnConfig {
            conv_kernel: 4,
            num_k_heads: 2,
            num_v_heads: 4,
            head_k_dim: 8,
            head_v_dim: 8,
            key_dim: 16,
            value_dim: 32,
            conv_dim: 64,
        },
        moe: Some(MOE),
    }
}

fn weights() -> MoeFfnWeights {
    MoeFfnWeights {
        gate: ExpertTensorMeta { m: 32, n: 64, per_expert_bytes: 100 },
        up: ExpertTensorMeta { m: 32, n: 64, per_expert_bytes: 120 },
        down: ExpertTensorMeta { m: 64, n: 32, per_expert_bytes: 110 },
    }
}

fn ops(steps: &[Step]) -> Vec<Op> {
    steps
        .iter()
        .filter_map(|s| match s {
            Step::Run { op } => Some(*op),
            _ => None,
        })
        .collect()
}

fn scopes(steps: &[Step]) -> Vec<OpKind> {
    steps
        .iter()
        .filter_map(|s| match s {
            Step::Enter { kind } => Some(*kind),
            _ => None,
        })
        .collect()
}

#[test]
fn attention_of_one_token() {
    let cfg = config();
    let mut cache = AttnLayerCache::Dense(AttnPlane::new(KvDtype::F16));
    let mut steps = Vec::new();
    attention_step(&mut steps, &cfg, true, &mut cache, 64, 9, 4, false);
    let bare = ops(&steps);
    assert_eq!(bare.len(), steps.len());
    assert_eq!(
        bare[1],
        Op::Matvec {
            w: Linear::AttnQ,
            x: start(Buf::Xn),
            out: start(Buf::AttnQRaw),
            m: 128,
            n: 64,
        }
    );
    let attend = Op::AttnDecode {
        dtype: KvDtype::F16,
        n_heads: 4,
        n_kv_heads: 2,
        head_dim: 16,
        max_seq: 64,
        cur_len: 10,
    };
    assert!(bare.contains(&attend));
    assert!(bare.iter().any(|op| matches!(op, Op::SigmoidMul { n: 64, .. })));
    assert_eq!(
        *bare.last().unwrap(),
        Op::AddInplace { x: start(Buf::X), y: start(Buf::AttnOut), n: 64 }
    );

    let mut scoped = Vec::new();
    attention_step(&mut scoped, &cfg, true, &mut cache, 64, 9, 4, true);
    assert_eq!(ops(&scoped), bare);
    assert_eq!(
        scopes(&scoped),
        vec![OpKind::Norm, OpKind::Qkv, OpKind::AttnDecode, OpKind::AttnOut]
    );
    let mut plain = Vec::new();
    attention_step(&mut plain, &cfg, false, &mut cache, 64, 9, 4, false);
    assert!(!ops(&plain).iter().any(|op| matches!(op, Op::SigmoidMul { .. })));
}

#[test]
fn attention_of_one_token_over_a_mixed_cache() {
    let cfg = config();
    let mut cache = AttnLayerCache::Mixed(MixedAttnPlane::new(2, 16, 64, 8, 4, 8, None));
    let mut steps = Vec::new();
    attention_step(&mut steps, &cfg, false, &mut cache, 64, 0, 4, false);
    match ops(&steps).iter().find(|op| matches!(op, Op::AttnDecodeMixed { .. })) {
        Some(Op::AttnDecodeMixed { ptrs, cur_len, .. }) => {
            assert_eq!(*cur_len, 1);
            assert_eq!(ptrs.window_base, 4);
            assert_eq!(ptrs.v_bits, 8);
        }
        other => panic!("unexpected {other:?}"),
    }
}

#[test]
fn a_chunk_ends_as_its_tokens_do() {
    let cfg = config();
    let mut serial = AttnLayerCache::Mixed(MixedAttnPlane::new(2, 16, 64, 8, 4, 8, None));
    let mut steps = Vec::new();
    for pos in 0..30 {
        attention_step(&mut steps, &cfg, false, &mut serial, 64, pos, 4, false);
    }
    let mut chunked = MixedAttnPlane::new(2, 16, 64, 8, 4, 8, None);
    let mut steps = Vec::new();
    attention_chunk_step_mixed(&mut steps, &cfg, false, &mut chunked, 64, 0, 17, false);
    attention_chunk_step_mixed(&mut steps, &cfg, false, &mut chunked, 64, 17, 13, true);
    match serial {
        AttnLayerCache::Mixed(p) => assert_eq!(p.ptrs(), chunked.ptrs()),
        other => panic!("unexpected {other:?}"),
    }
}

#[test]
fn attention_of_a_chunk() {
    let cfg = config();
    let plane = AttnPlane::new(KvDtype::F16);
    let mut steps = Vec::new();
    attention_chunk_step(&mut steps, &cfg, true, &plane, 64, 5, 7, true);
    let all = ops(&steps);
    assert!(all.contains(&Op::ScatterKv {
        dtype: KvDtype::F16,
        k_src: start(Buf::AttnK),
        v_src: start(Buf::AttnV),
        k_dst: Buf::PlaneK,
        v_dst: Buf::PlaneV,
        n_kv_heads: 2,
        head_dim: 16,
        max_seq: 64,
        rows: 7,
        pos_base: 5,
    }));
    let gate = Op::ExtractHeads {
        src: start(Buf::AttnQRaw),
        dst: start(Buf::AttnGate),
        tokens: 7,
        heads: 4,
        head_dim: 16,
        src_stride: 32,
        src_offset: 16,
    };
    assert!(all.contains(&gate));
    assert_eq!(
        *all.last().unwrap(),
        Op::AddInplace { x: start(Buf::X), y: start(Buf::AttnOut), n: 7 * 64 }
    );
}

#[test]
fn prefill_cost_counts_every_position_read() {
    // Rows see 6, 7 and 8 positions.
    let seen = 6 + 7 + 8;
    let (bytes, flops) = attn_prefill_cost(4, 2, 16, 5, 3);
    assert_eq!(flops, 4 * 4 * seen * 16);
    assert_eq!(bytes, 2 * 2 * seen * 16 * 4 + 3 * 4 * 16 * 4);
    assert_eq!(attn_prefill_mixed_cost(4, 2, 16, 5, 3), (bytes, flops));
}

#[test]
fn linear_attention_of_one_token() {
    let cfg = config();
    let mut steps = Vec::new();
    gdn_layer_step(&mut steps, &cfg, false);
    let all = ops(&steps);
    assert!(all.contains(&Op::GdnConv1dDecode { channels: 64, kernel_size: 4 }));
    assert!(all.contains(&Op::GdnRecurrenceDecode {
        q: At { buf: Buf::GdnConvOut, offset: 0 },
        k: At { buf: Buf::GdnConvOut, offset: 16 },
        v: At { buf: Buf::GdnConvOut, offset: 32 },
        num_heads: 4,
        num_k_heads: 2,
        head_k_dim: 8,
        head_v_dim: 8,
    }));
    let mut scoped = Vec::new();
    gdn_layer_step(&mut scoped, &cfg, true);
    assert_eq!(ops(&scoped), all);
    assert_eq!(
        scopes(&scoped),
        vec![OpKind::Norm, OpKind::GdnConv, OpKind::GdnRecur, OpKind::GdnOut]
    );
}

#[test]
fn layer_costs_add_the_costs_of_their_parts() {
    let cfg = config();
    let mut steps = Vec::new();
    gdn_layer_step(&mut steps, &cfg, true);
    let terms = |steps: &[Step]| -> Vec<Term> {
        steps
            .iter()
            .filter_map(|s| match s {
                Step::Cost { term } => Some(*term),
                _ => None,
            })
            .collect()
    };
    assert_eq!(gdn_layer_step_cost(&cfg), terms(&steps));
    let mut steps = Vec::new();
    ffn_step(&mut steps, &cfg, true);
    assert_eq!(ffn_step_cost(&cfg), terms(&steps));
    let cost = attention_step_cost(&cfg, false, 10);
    assert_eq!(cost[0], Term::Norm { rows: 1, cols: 64 });
}

#[test]
fn tiles_cover_the_chunk() {
    let g = config().gdn;
    let all = gdn_chunkwise_step(&g, 300);
    let tiles: Vec<u32> = all
        .iter()
        .filter_map(|op| match op {
            Op::CwTinv { tile_len, .. } => Some(*tile_len),
            _ => None,
        })
        .collect();
    assert_eq!(tiles.iter().sum::<u32>(), 300);
    assert!(tiles[..tiles.len() - 1].iter().all(|&t| t == tiles[0]));
    assert!(gdn_chunkwise_step(&g, 0).is_empty());
}

#[test]
fn matrix_kernels_need_whole_tiles_of_sixteen() {
    let narrow = config().gdn;
    let wide = GdnConfig { head_k_dim: 128, head_v_dim: 128, ..narrow };
    let odd = GdnConfig { head_k_dim: 128, head_v_dim: 120, ..narrow };
    let big = GdnConfig { head_k_dim: 256, head_v_dim: 128, ..narrow };
    let flags = |g: &GdnConfig| {
        let mut out = (false, false, false);
        for op in gdn_chunkwise_step(g, 16) {
            match op {
                Op::CwUtBuild { wmma, .. } => out.0 = wmma,
                Op::CwOutput { wmma, .. } => out.1 = wmma,
                Op::CwStateUpdate { wmma, .. } => out.2 = wmma,
                _ => {}
            }
        }
        out
    };
    assert_eq!(flags(&narrow), (false, false, false));
    assert_eq!(flags(&wide), (true, true, true));
    assert_eq!(flags(&odd), (true, false, false));
    assert_eq!(flags(&big), (false, false, true));
}

#[test]
fn diagnostic_runs_record_activations() {
    let cfg = config();
    let mut steps = Vec::new();
    gdn_chunk_step(&mut steps, &cfg, 5, false, true);
    ffn_chunk_step(&mut steps, &cfg, 5, false, true);
    let probes: Vec<Probe> = steps
        .iter()
        .filter_map(|s| match s {
            Step::Record { probe, rows, .. } => {
                assert_eq!(*rows, 5);
                Some(*probe)
            }
            _ => None,
        })
        .collect();
    assert!(probes.contains(&Probe::GdnXn));
    assert!(probes.contains(&Probe::FfnDownOut));
    let mut quiet = Vec::new();
    gdn_chunk_step(&mut quiet, &cfg, 5, false, false);
    ffn_chunk_step(&mut quiet, &cfg, 5, false, false);
    assert_eq!(ops(&quiet), ops(&steps));
    assert_eq!(quiet.len(), ops(&quiet).len());
}

#[test]
fn dense_feed_forward() {
    let mut steps = Vec::new();
    ffn_step(&mut steps, &config(), false);
    let all = ops(&steps);
    assert_eq!(
        all[3],
        Op::SiluMul {
            gate: start(Buf::FfnGate),
            up: start(Buf::FfnUp),
            out: start(Buf::FfnGate),
            n: 128,
        }
    );
    assert_eq!(all.len(), 6);
}

fn params(chunk: bool, rows: u32) -> PassParams {
    PassParams {
        chunk,
        rows,
        profile: Profile::Off,
        n_splits: 1,
        captured: false,
        want_logits: true,
    }
}

#[test]
fn experts_need_checkpoint_configuration_and_buffers() {
    let cfg = config();
    let ffn = Ffn::Moe(weights());
    let one = params(false, 1);
    let mut steps = Vec::new();
    assert_eq!(
        ffn_dispatch(&mut steps, &cfg, &ffn, false, true, &one),
        Err(ConfigError::MoeNoCheckpoint)
    );
    assert_eq!(
        ffn_dispatch(&mut steps, &cfg, &ffn, true, false, &one),
        Err(ConfigError::MoeNoScratch)
    );
    let bare = Qwen35Config { moe: None, ..config() };
    assert_eq!(
        ffn_dispatch(&mut steps, &bare, &ffn, true, true, &one),
        Err(ConfigError::MoeNoConfig)
    );
    assert!(steps.is_empty());
    assert_eq!(ffn_dispatch(&mut steps, &cfg, &ffn, true, true, &one), Ok(()));
    assert!(ops(&steps).iter().any(|op| matches!(op, Op::RouteTopk { top_k: 2, .. })));
    let dense = Ffn::Dense(FfnWeights::new(64, 128));
    let mut steps = Vec::new();
    assert_eq!(ffn_dispatch(&mut steps, &cfg, &dense, false, false, &one), Ok(()));
    assert_eq!(ffn_cost_dispatch(&cfg, &dense), ffn_step_cost(&cfg));
    assert_eq!(ffn_cost_dispatch(&cfg, &ffn), moe_ffn_step_cost(&cfg, &MOE, &weights()));
}

#[test]
fn chosen_experts_without_a_cache_are_staged() {
    let cfg = config();
    let route = moe_route_step(&cfg, &MOE, start(Buf::X));
    assert_eq!(*route.last().unwrap(), Op::SharedGateWrite { n: 64 });
    let mut none = None;
    let plan = moe_ffn_step(&cfg, &MOE, 0, &[5, 1], &mut none, start(Buf::X), false).unwrap();
    assert_eq!(plan.experts, vec![5, 1]);
    assert!(plan.placements.is_empty());
    assert_eq!(plan.ops.len(), 2 * (3 + 5) + 1);
    let weight: Vec<usize> = plan
        .ops
        .iter()
        .filter_map(|op| match op {
            Op::WeightedAccum { weight, .. } => Some(weight.offset),
            _ => None,
        })
        .collect();
    assert_eq!(weight, vec![0, 1]);
    assert_eq!(
        moe_ffn_step(&cfg, &MOE, 0, &[5, 8], &mut none, start(Buf::X), false).err(),
        Some(ConfigError::ExpertOutOfRange { expert: 8, expert_count: 8 })
    );
}

#[test]
fn cached_experts_are_copied_once() {
    let cfg = config();
    let mut cache = ExpertCache::new(4, 100, 120, 110, false);
    let first = moe_ffn_step(&cfg, &MOE, 0, &[5, 1], &mut cache, start(Buf::X), false).unwrap();
    let again = moe_ffn_step(&cfg, &MOE, 0, &[1, 5], &mut cache, start(Buf::X), false).unwrap();
    let uploads = |ops: &[Op]| {
        ops.iter().filter(|op| matches!(op, Op::UploadExpert { .. })).count()
    };
    assert_eq!(uploads(&first.ops), 6);
    assert_eq!(uploads(&again.ops), 0);
    assert_eq!(again.placements[0].slot, first.placements[1].slot);
    assert_eq!(cache.as_ref().unwrap().stats(), (2, 2));
}

#[test]
fn pipelined_copies_compute_the_same_experts() {
    let cfg = config();
    let mut plain = ExpertCache::new(4, 100, 120, 110, false);
    let mut piped = ExpertCache::new(4, 100, 120, 110, true);
    let compute = |ops: &[Op]| -> Vec<Op> {
        ops.iter()
            .filter(|op| {
                !matches!(
                    op,
                    Op::UploadExpert { .. }
                        | Op::StartUploadExpert { .. }
                        | Op::MarkComputeDone
                        | Op::WaitUpload
                )
            })
            .copied()
            .collect()
    };
    let a = moe_ffn_step(&cfg, &MOE, 0, &[5, 1], &mut plain, start(Buf::X), false).unwrap();
    let b = moe_ffn_step(&cfg, &MOE, 0, &[5, 1], &mut piped, start(Buf::X), false).unwrap();
    assert_eq!(compute(&a.ops), compute(&b.ops));
    assert!(b.ops.iter().any(|op| matches!(op, Op::StartUploadExpert { .. })));
    let mut captured = ExpertCache::new(4, 100, 120, 110, true);
    let c = moe_ffn_step(&cfg, &MOE, 0, &[5, 1], &mut captured, start(Buf::X), true).unwrap();
    assert_eq!(c.ops, a.ops);
}

#[test]
fn a_chunk_is_routed_by_expert() {
    let cfg = config();
    let route = moe_chunk_route_step(&cfg, &MOE, 3);
    assert_eq!(*route.last().unwrap(), Op::SharedGateWriteChunk { rows: 3, cols: 64 });
    let idx = [5, 1, 5, 0, 1, 5];
    let weights = [10u32, 20, 30, 40, 50, 60];
    let mut none = None;
    let plan = moe_ffn_chunk_step(&cfg, &MOE, 0, &idx, &weights, &mut none, 3).unwrap();
    assert_eq!(plan.experts, vec![0, 1, 5]);
    assert_eq!(plan.groups.iter().map(|g| g.len()).sum::<usize>(), 6);
    assert_eq!(plan.groups[5].len(), 3);
    assert!(plan.ops.contains(&Op::GatherRows { rows: 3, cols: 64 }));
    assert_eq!(
        moe_ffn_chunk_step(&cfg, &MOE, 0, &[-1, 0], &[0, 0], &mut none, 1).err(),
        Some(ConfigError::InvalidExpertIndex { raw: -1, expert_count: 8 })
    );
    // A row may name an expert twice, as long as the expert's rows fit.
    let twice = moe_ffn_chunk_step(&cfg, &MOE, 0, &[3, 3], &[0, 0], &mut none, 1).unwrap();
    assert_eq!(twice.experts, vec![3]);
    assert_eq!(twice.groups[3].len(), 2);
    let full = moe_ffn_chunk_step(&cfg, &MOE, 0, &[3; 512], &[0; 512], &mut none, 256).unwrap();
    assert_eq!(full.groups[3].len(), 512);
    assert_eq!(
        moe_ffn_chunk_step(&cfg, &MOE, 0, &[3; 514], &[0; 514], &mut none, 257).err(),
        Some(ConfigError::GroupTooLarge { expert: 3, rows: 514, cap: 512 })
    );
}

#[test]
fn sizes_that_do_not_fit_are_found() {
    assert!(check_dims_fit(&config(), 512));
    assert!(!check_dims_fit(&config(), 0));
    let huge = Qwen35Config { embedding_length: u32::MAX, ..config() };
    assert!(check_dims_fit(&huge, 1));
    assert!(!check_dims_fit(&huge, 2));
}

#[test]
fn activation_buffers() {
    let cfg = config();
    let s = Scratch::new(&cfg, 64);
    assert_eq!(s.activations.attn_q_raw, 128);
    assert_eq!(s.attn_scores, 4 * 64);
    assert_eq!(s.l2_alpha_k, 8);
    let c = ChunkScratch::new(&cfg);
    assert_eq!(c.activations.x, 512 * 64);
    assert_eq!(c.activations.logits, 1000);
    let m = MoeScratch::new(&cfg, &MOE, &[None, Some(weights())]);
    assert_eq!(m.ffn_a, 48);
    assert_eq!(m.stage_down, 120);
    let mc = MoeChunkScratch::new(&cfg, &MOE);
    assert_eq!(mc.group_gate, 512 * 32);
    assert_eq!(mc.topk_idx, 1024);
    assert!(!KvCacheMode::Fp16.is_quantized());
}

/// What each place of the expert memory holds, and what was read of it.
#[derive(Default)]
struct Memory {
    held: Vec<(At, (u32, u32))>,
    flying: Vec<(At, (u32, u32))>,
    busy: Vec<At>,
    read: Vec<Option<(u32, u32)>>,
}

impl Memory {
    fn forget(&mut self, at: At) {
        self.held.retain(|h| h.0 != at);
    }

    fn run(&mut self, layer: u32, ops: &[Op]) {
        for op in ops {
            match *op {
                Op::UploadExpert { dst, expert, .. } => {
                    self.forget(dst);
                    self.held.push((dst, (layer, expert)));
                }
                Op::StartUploadExpert { dst, expert, .. } => {
                    assert!(!self.busy.contains(&dst));
                    self.forget(dst);
                    self.flying.push((dst, (layer, expert)));
                }
                Op::MarkComputeDone => self.busy.clear(),
                Op::WaitUpload => {
                    let mut landed = std::mem::take(&mut self.flying);
                    self.held.append(&mut landed);
                }
                Op::GemvQuant { w, .. } | Op::GemmQuant { w, .. } => {
                    self.busy.push(w);
                    let found = self.held.iter().find(|h| h.0 == w).map(|h| h.1);
                    self.read.push(found);
                }
                _ => {}
            }
        }
        assert!(self.flying.is_empty());
        self.busy.clear();
    }
}

#[test]
fn chosen_experts_read_their_own_bytes() {
    let cfg = config();
    for overlap in [false, true] {
        let mut memory = Memory::default();
        let mut cache = ExpertCache::new(3, 100, 120, 110, overlap);
        let mut want = Vec::new();
        for (layer, idx) in [(0, [5, 1]), (1, [5, 2]), (0, [1, 5]), (1, [2, 7]), (0, [5, 0])] {
            let at = start(Buf::X);
            let plan = moe_ffn_step(&cfg, &MOE, layer, &idx, &mut cache, at, false).unwrap();
            memory.run(layer, &plan.ops);
            for e in idx {
                want.extend([Some((layer, e as u32)); 3]);
            }
        }
        let chunk =
            moe_ffn_chunk_step(&cfg, &MOE, 1, &[5, 1, 5, 0], &[0; 4], &mut cache, 2).unwrap();
        memory.run(1, &chunk.ops);
        for e in [0, 1, 5] {
            want.extend([Some((1, e)); 3]);
        }
        assert_eq!(memory.read, want);
    }
}

#[test]
fn one_slot_is_too_few_to_copy_ahead() {
    let cfg = config();
    let at = start(Buf::X);
    let mut memory = Memory::default();
    let mut cache = ExpertCache::new(1, 100, 120, 110, true);
    assert!(cache.as_ref().unwrap().overlap_enabled());
    assert!(!cache.as_ref().unwrap().pipelines());
    let plan = moe_ffn_step(&cfg, &MOE, 0, &[5, 1], &mut cache, at, false).unwrap();
    memory.run(0, &plan.ops);
    let own = |e: u32| [Some((0, e)); 3];
    assert_eq!(memory.read, [own(5), own(1)].concat());
    // The order is the one without copies ahead.
    let mut plain = ExpertCache::new(1, 100, 120, 110, false);
    let same = moe_ffn_step(&cfg, &MOE, 0, &[5, 1], &mut plain, at, false).unwrap();
    assert_eq!(same.ops, plan.ops);
    assert!(ExpertCache::new(2, 100, 120, 110, true).unwrap().pipelines());
    assert!(!ExpertCache::new(2, 100, 120, 110, false).unwrap().pipelines());
}

#[test]
fn operands_stay_inside_the_activations() {
    let cfg = config();
    let mut steps = Vec::new();
    gdn_chunk_step(&mut steps, &cfg, 512, false, false);
    ffn_chunk_step(&mut steps, &cfg, 512, false, false);
    let a = ChunkScratch::new(&cfg).activations;
    let room = |buf: Buf| match buf {
        Buf::X => a.x,
        Buf::Xn => a.xn,
        Buf::GdnQkv => a.gdn_qkv,
        Buf::GdnZ => a.gdn_z,
        Buf::GdnY => a.gdn_y,
        Buf::GdnOut => a.gdn_out,
        Buf::FfnGate => a.ffn_gate,
        Buf::FfnUp => a.ffn_up,
        Buf::FfnOut => a.ffn_out,
        _ => usize::MAX,
    };
    let inside = |at: At, len: u32| at.offset + len as usize <= room(at.buf);
    let mut filled = 0;
    for op in ops(&steps) {
        match op {
            Op::Matmul { x, out, rows, m, n, .. } => {
                assert!(inside(x, rows * n) && inside(out, rows * m));
                filled += (out.offset + (rows * m) as usize == room(out.buf)) as usize;
            }
            Op::Rmsnorm { x, out, rows, cols, .. } => {
                assert!(inside(x, rows * cols) && inside(out, rows * cols));
            }
            Op::SiluMul { gate, up, out, n } => {
                assert!(inside(gate, n) && inside(up, n) && inside(out, n));
            }
            Op::AddInplace { x, y, n } => assert!(inside(x, n) && inside(y, n)),
            Op::CwOutput { y, num_v_heads, head_v_dim, tile_len, .. } => {
                assert!(inside(y, tile_len * num_v_heads * head_v_dim));
            }
            _ => {}
        }
    }
    assert!(filled >= 5);
}
