//! The key/value caches' bookkeeping.

use rocml::error::{ConfigError, PlaneField};
use rocml::load_opts::{KvCacheMode, KvDtype};
use rocml::qwen35::cache::copies::RangeCopy;
use rocml::qwen35::cache::hybrid::snapshot::{AttnTransfer, Filled};
use rocml::qwen35::cache::hybrid::state::{GdnZero, Side, StateCopy, StatePart};
use rocml::qwen35::cache::hybrid::{
    check_cache_fits, max_seq_of, AttnLayerCache, HybridCache, KvOptions,
};
use rocml::qwen35::cache::layout::MixedLayout;
use rocml::qwen35::cache::mixed::{MixedAttnPlane, RotSimSpec};
use rocml::qwen35::cache::plane::{check_len, AttnPlane, GdnLayerState, GdnTransfer};
use rocml::qwen35::config::{GdnConfig, LayerKind, Qwen35Config};
use rocml::qwen35::forward::plan::{At, Buf, Op};
use rocml::snapshot::types::{AttnLayerBytes, GdnLayerBytes};

const L: LayerKind = LayerKind::LinearAttention;
const F: LayerKind = LayerKind::FullAttention;

fn config(kinds: &[LayerKind]) -> Qwen35Config {
    Qwen35Config {
        block_count: kinds.len() as u32,
        embedding_length: 64,
        feed_forward_length: 128,
        head_count: 4,
        head_count_kv: 2,
        head_dim: 16,
        rope_freq_base: 1.0e6f32.to_bits(),
        rope_dim_count: 8,
        rms_eps: 1.0e-6f32.to_bits(),
        context_length: 4096,
        vocab_size: 1000,
        layer_kinds: kinds.to_vec(),
        gdn: GdnConfig {
            conv_kernel: 4,
            num_k_heads: 2,
            num_v_heads: 4,
            head_k_dim: 8,
            head_v_dim: 8,
            key_dim: 16,
            value_dim: 32,
            conv_dim: 64,
        },
        moe: None,
    }
}

fn kv(mode: KvCacheMode) -> KvOptions {
    KvOptions { mode, sink: 4, window: 8, rot_sim: None }
}

fn plane() -> MixedAttnPlane {
    MixedAttnPlane::new(2, 16, 64, 8, 4, 8, None)
}

#[test]
fn positions_fill_sink_then_window_then_evict() {
    let mut layout = MixedLayout::with_lens(2, 3);
    assert_eq!(layout.window_base(), 2);
    assert!(layout.is_next(0));
    assert_eq!(layout.prepare_append(2), (0, None));
    assert_eq!(layout.prepare_append(3), (1, None));
    assert_eq!(layout.prepare_append(4), (2, None));
    assert_eq!(layout.prepare_append(5), (0, Some(0)));
    assert_eq!(layout.window_base(), 5);
    assert_eq!(layout.evicted_blocks(), 1);
    assert!(!layout.is_next(4));
    assert!(layout.is_next(8));
}

#[test]
fn chunk_append_is_serial_append() {
    let mut serial = MixedLayout::with_lens(2, 3);
    let mut evicted = Vec::new();
    for pos in 2..13 {
        if let (_, Some(block)) = serial.prepare_append(pos) {
            evicted.push(block);
        }
    }
    let mut chunked = MixedLayout::with_lens(2, 3);
    let (sink, segments) = chunked.plan_chunk_append(0, 13);
    assert_eq!(sink, 2);
    assert_eq!(chunked.window_base(), serial.window_base());
    let blocks: Vec<u32> = segments.iter().filter_map(|s| s.evict_after).collect();
    assert_eq!(blocks, evicted);
    let rows: u32 = segments.iter().map(|s| s.len).sum();
    assert_eq!(sink + rows, 13);
}

#[test]
fn only_whole_blocks_past_the_sink_are_window_starts() {
    assert!(MixedLayout::from_window_base_with_lens(8, 2, 3).is_some());
    assert!(MixedLayout::from_window_base_with_lens(9, 2, 3).is_none());
    assert!(MixedLayout::from_window_base_with_lens(1, 2, 3).is_none());
}

#[test]
fn dense_append_writes_every_head() {
    let plane = AttnPlane::new(KvDtype::F32);
    let mut ops = Vec::new();
    plane.append(&mut ops, 5, 32, 2, 16);
    assert_eq!(
        ops,
        vec![
            Op::CopyDevice {
                dst: At { buf: Buf::PlaneK, offset: 5 * 16 },
                src: At { buf: Buf::AttnK, offset: 0 },
                len: 16,
            },
            Op::CopyDevice {
                dst: At { buf: Buf::PlaneV, offset: 5 * 16 },
                src: At { buf: Buf::AttnV, offset: 0 },
                len: 16,
            },
            Op::CopyDevice {
                dst: At { buf: Buf::PlaneK, offset: (32 + 5) * 16 },
                src: At { buf: Buf::AttnK, offset: 16 },
                len: 16,
            },
            Op::CopyDevice {
                dst: At { buf: Buf::PlaneV, offset: (32 + 5) * 16 },
                src: At { buf: Buf::AttnV, offset: 16 },
                len: 16,
            },
        ]
    );
    assert_eq!(plane.plane_len(2, 32, 16), 1024);
    assert_eq!(plane.head_plane_offset(1, 32, 16), 512);
    assert_eq!(plane.k_ptr(), At { buf: Buf::PlaneK, offset: 0 });
    assert_eq!(plane.v_ptr(), At { buf: Buf::PlaneV, offset: 0 });
}

#[test]
fn mixed_append_evicts_a_full_window() {
    let mut p = plane();
    let mut ops = Vec::new();
    for pos in 0..12 {
        p.append(&mut ops, pos);
    }
    assert!(!ops.iter().any(|op| matches!(op, Op::QuantizeEvictK { .. })));
    ops.clear();
    p.append(&mut ops, 12);
    assert_eq!(
        ops[0],
        Op::QuantizeEvictK {
            n_kv_heads: 2,
            window_len: 8,
            head_dim: 16,
            bulk_cap: 64,
            num_blocks_total: 8,
            block: 0,
        }
    );
    assert_eq!(
        ops[1],
        Op::QuantizeEvictV {
            v_bits: 8,
            n_kv_heads: 2,
            window_len: 8,
            head_dim: 16,
            bulk_cap: 64,
            block: 0,
        }
    );
    assert_eq!(p.ptrs().window_base, 12);
    p.reset();
    assert_eq!(p.ptrs().window_base, 4);
}

#[test]
fn simulated_rotation_comes_before_every_eviction() {
    let rot = RotSimSpec { bpw: 3, apply_to_k: true };
    let mut serial = MixedAttnPlane::new(2, 16, 64, 4, 4, 8, Some(rot));
    let mut ops = Vec::new();
    for pos in 0..13 {
        serial.append(&mut ops, pos);
    }
    let at = ops.iter().position(|op| matches!(op, Op::RotSim { .. })).unwrap();
    assert!(matches!(ops[at], Op::RotSim { bpw: 3, apply_to_k: true, .. }));
    assert!(matches!(ops[at + 1], Op::QuantizeEvictK { .. }));
    let mut chunked = MixedAttnPlane::new(2, 16, 64, 4, 4, 8, Some(rot));
    let mut ops = Vec::new();
    chunked.append_chunk(&mut ops, 0, 13);
    let at = ops.iter().position(|op| matches!(op, Op::RotSim { .. })).unwrap();
    assert!(matches!(ops[at + 1], Op::QuantizeEvictK { .. }));
    assert_eq!(chunked.ptrs(), serial.ptrs());
}

#[test]
fn mixed_buffers_are_sized_for_the_longest_sequence() {
    let p = plane();
    let lens = p.lens();
    // 60 positions past the sink: eight blocks of eight.
    assert_eq!(lens.sink, 2 * 4 * 16);
    assert_eq!(lens.window, 2 * 8 * 16);
    assert_eq!(lens.bulk_k_codes, 2 * 64 * 16);
    assert_eq!(lens.bulk_k_scales, 2 * 8 * 16);
    assert_eq!(lens.bulk_v_codes, 2 * 64 * 16);
    assert_eq!(lens.bulk_v_scales, 2 * 64);
    let narrow = MixedAttnPlane::new(2, 16, 64, 4, 4, 8, None);
    assert_eq!(narrow.v_bits(), 4);
    assert_eq!(narrow.lens().bulk_v_codes, 2 * 64 * 8);
}

fn captured_mixed(p: &MixedAttnPlane) -> AttnLayerBytes {
    let t = p.capture();
    AttnLayerBytes::Mixed {
        sink_k: vec![0; t.lens.sink],
        sink_v: vec![0; t.lens.sink],
        window_k: vec![0; t.lens.window],
        window_v: vec![0; t.lens.window],
        bulk_k_codes: vec![0; t.lens.bulk_k_codes],
        bulk_k_scales: vec![0; t.lens.bulk_k_scales],
        bulk_v_codes: vec![0; t.lens.bulk_v_codes],
        bulk_v_scales: vec![0; t.lens.bulk_v_scales],
        window_base: t.window_base,
        v_bits: t.v_bits,
    }
}

#[test]
fn mixed_capture_takes_only_filled_blocks_and_is_accepted() {
    let mut p = plane();
    let mut ops = Vec::new();
    p.append_chunk(&mut ops, 0, 13);
    let t = p.capture();
    assert_eq!(t.window_base, 12);
    assert_eq!(t.lens.bulk_k_codes, 2 * 8 * 16);
    // One block out of each head's eight.
    assert_eq!(t.bulk.k_codes.len(), 2);
    assert_eq!(t.bulk.k_codes[1].device, 64 * 16);
    assert_eq!(t.bulk.k_codes[1].host, 8 * 16);
    assert_eq!(t.bulk.k_codes[1].len, 8 * 16);
    let bytes = captured_mixed(&p);
    assert_eq!(p.snapshot_byte_size(), bytes.byte_size());
    let mut other = plane();
    other.restore(&bytes).unwrap();
    assert_eq!(other.ptrs(), p.ptrs());
}

#[test]
fn malformed_mixed_captures_are_refused() {
    let mut p = plane();
    let bytes = captured_mixed(&p);
    let dense = AttnLayerBytes::DenseF16 { k: vec![], v: vec![] };
    assert_eq!(p.restore(&dense).err(), Some(ConfigError::PlaneNotMixed));
    if let AttnLayerBytes::Mixed {
        sink_k,
        sink_v,
        window_k,
        window_v,
        bulk_k_codes,
        bulk_k_scales,
        bulk_v_codes,
        bulk_v_scales,
        window_base,
        v_bits,
    } = bytes
    {
        let make = |sink: usize, base: u32, bits: u8, codes: usize| AttnLayerBytes::Mixed {
            sink_k: vec![0; sink],
            sink_v: sink_v.clone(),
            window_k: window_k.clone(),
            window_v: window_v.clone(),
            bulk_k_codes: vec![0; codes],
            bulk_k_scales: bulk_k_scales.clone(),
            bulk_v_codes: bulk_v_codes.clone(),
            bulk_v_scales: bulk_v_scales.clone(),
            window_base: base,
            v_bits: bits,
        };
        assert!(p.restore(&make(sink_k.len(), window_base, v_bits, bulk_k_codes.len())).is_ok());
        assert_eq!(
            p.restore(&make(sink_k.len(), window_base, 4, 0)).err(),
            Some(ConfigError::VBitsMismatch { found: 4, expected: 8 })
        );
        assert_eq!(
            p.restore(&make(3, window_base, v_bits, 0)).err(),
            Some(ConfigError::PlaneLen {
                field: PlaneField::SinkK,
                found: 3,
                expected: sink_k.len(),
            })
        );
        assert_eq!(
            p.restore(&make(sink_k.len(), 5, v_bits, 0)).err(),
            Some(ConfigError::WindowBase { window_base: 5, sink_len: 4, window_len: 8 })
        );
        assert_eq!(
            p.restore(&make(sink_k.len(), window_base, v_bits, 1)).err(),
            Some(ConfigError::PlaneLen { field: PlaneField::BulkKCodes, found: 1, expected: 0 })
        );
    } else {
        panic!("captured layer is not mixed");
    }
}

#[test]
fn dense_captures_are_checked() {
    let p = AttnPlane::new(KvDtype::F16);
    let t = p.capture(2, 32, 16, 5);
    assert_eq!(t.len, 2 * 5 * 16);
    assert_eq!(t.copies[1].device, 32 * 16);
    assert_eq!(t.copies[1].host, 5 * 16);
    assert_eq!(p.snapshot_byte_size(2, 16, 5), 2 * (2 * 5 * 16) * 2);
    let good = AttnLayerBytes::DenseF16 { k: vec![0; 160], v: vec![0; 160] };
    assert!(p.restore(&good, 2, 32, 16, 5).is_ok());
    let short = AttnLayerBytes::DenseF16 { k: vec![0; 159], v: vec![0; 160] };
    assert_eq!(
        p.restore(&short, 2, 32, 16, 5).err(),
        Some(ConfigError::PrefixLen { found: 159, expected: 160 })
    );
    let wide = AttnLayerBytes::DenseF32 { k: vec![0; 160], v: vec![0; 160] };
    assert_eq!(p.restore(&wide, 2, 32, 16, 5).err(), Some(ConfigError::PlaneDtype));
    assert_eq!(check_len(3, 3), Ok(()));
}

#[test]
fn linear_state_sizes_and_checks() {
    let cfg = config(&[L]);
    let state = GdnLayerState::new(&cfg.gdn);
    assert_eq!(state.conv_len, 64 * 3);
    assert_eq!(state.state_len, 4 * 8 * 8);
    let good = GdnLayerBytes { conv_state: vec![0; 192], state: vec![0; 256] };
    let whole = GdnTransfer { conv_len: 192, state_len: 256 };
    assert_eq!(state.capture(), whole);
    assert_eq!(state.restore(&good), Ok(whole));
    let bad = GdnLayerBytes { conv_state: vec![0; 191], state: vec![0; 256] };
    assert_eq!(
        state.restore(&bad),
        Err(ConfigError::GdnLen {
            conv_found: 191,
            conv_expected: 192,
            state_found: 256,
            state_expected: 256,
        })
    );
}

#[test]
fn boundary_layers_stay_dense() {
    let cfg = config(&[F, L, F, F, L, F]);
    let mut cache = HybridCache::new(&cfg, 64, &kv(KvCacheMode::Q4Mixed));
    assert!(cache.has_mixed_layers());
    assert_eq!(cache.max_seq(), 64);
    assert_eq!(cache.len(), 6);
    assert!(cache.attn_dense_mut(0).is_ok());
    assert!(cache.attn_dense_mut(5).is_ok());
    assert_eq!(cache.attn_dense_mut(2).err(), Some(ConfigError::MixedPlane { layer: 2 }));
    match cache.attn_mut(3).unwrap() {
        AttnLayerCache::Mixed(p) => assert_eq!(p.v_bits(), 4),
        other => panic!("unexpected {other:?}"),
    }
    assert!(cache.gdn_mut(1).is_ok());
    assert_eq!(cache.gdn_mut(0).err(), Some(ConfigError::NoGdnState { layer: 0 }));
    assert_eq!(cache.attn_mut(1).err(), Some(ConfigError::NoAttnPlane { layer: 1 }));
    assert_eq!(cache.attn_mut(6).err(), Some(ConfigError::NoAttnPlane { layer: 6 }));
}

#[test]
fn dense_mode_has_no_mixed_layers() {
    let cfg = config(&[F, F, F]);
    let mut cache = HybridCache::new(&cfg, 64, &kv(KvCacheMode::Fp16));
    assert!(!cache.has_mixed_layers());
    assert_eq!(cache.attn_dense_mut(1).unwrap().dtype(), KvDtype::F16);
}

#[test]
fn longest_sequence_is_within_the_model_and_at_least_one() {
    let cfg = config(&[L, F]);
    assert_eq!(max_seq_of(&cfg, 100), 100);
    assert_eq!(max_seq_of(&cfg, 1_000_000), 4096);
    assert_eq!(max_seq_of(&cfg, 0), 1);
}

#[test]
fn sizes_that_cannot_be_addressed_are_found() {
    let cfg = config(&[F, F, F]);
    assert!(check_cache_fits(&cfg, 64, &kv(KvCacheMode::Q8)));
    let zero_window = KvOptions { mode: KvCacheMode::Q8, sink: 4, window: 0, rot_sim: None };
    assert!(!check_cache_fits(&cfg, 64, &zero_window));
    let huge = Qwen35Config { head_dim: u32::MAX, context_length: u32::MAX, ..config(&[F, F, F]) };
    assert!(!check_cache_fits(&huge, usize::MAX, &kv(KvCacheMode::Q8)));
}

fn advance(cache: &mut HybridCache, layers: &[usize], from: u32, to: u32) {
    for &i in layers {
        if let AttnLayerCache::Mixed(p) = cache.attn_mut(i).unwrap() {
            let mut ops = Vec::new();
            p.append_chunk(&mut ops, from, to - from);
        }
    }
}

fn window_base(cache: &mut HybridCache, i: usize) -> u32 {
    match cache.attn_mut(i).unwrap() {
        AttnLayerCache::Mixed(p) => p.ptrs().window_base,
        other => panic!("unexpected {other:?}"),
    }
}

#[test]
fn rewind_gives_back_what_was_saved() {
    let cfg = config(&[F, F, L, F, F]);
    let mut cache = HybridCache::new(&cfg, 64, &kv(KvCacheMode::Q8));
    advance(&mut cache, &[1, 3], 0, 13);
    let mut storage = cache.new_rewind_storage();
    let copies = |from, to| {
        let window = StatePart::Window { window_elems: 2 * 8 * 16 };
        let gdn = StatePart::Gdn { conv_len: 192, state_len: 256 };
        vec![
            StateCopy { layer: 2, part: gdn, from, to },
            StateCopy { layer: 1, part: window, from, to },
            StateCopy { layer: 3, part: window, from, to },
        ]
    };
    assert_eq!(cache.save_rewind(&mut storage), Ok(copies(Side::Live, Side::Saved)));
    advance(&mut cache, &[1, 3], 13, 40);
    assert_eq!(window_base(&mut cache, 1), 36);
    assert_eq!(cache.restore_rewind(&storage), Ok(copies(Side::Saved, Side::Live)));
    assert_eq!(window_base(&mut cache, 1), 12);
    assert_eq!(window_base(&mut cache, 3), 12);
    let mut other = HybridCache::new(&config(&[L, F]), 64, &kv(KvCacheMode::Q8));
    assert_eq!(other.save_rewind(&mut storage).err(), Some(ConfigError::RewindLayout));
    assert_eq!(other.restore_rewind(&storage).err(), Some(ConfigError::RewindLayout));
}

#[test]
fn whole_cache_is_captured_and_restored() {
    let cfg = config(&[F, L, F, F]);
    let mut cache = HybridCache::new(&cfg, 64, &kv(KvCacheMode::Q8));
    advance(&mut cache, &[2], 0, 13);
    let f = Filled { n_kv_heads: 2, head_dim: 16, filled: 13 };
    let plans = cache.capture_all(f);
    let mut attn = Vec::new();
    let whole = Some(GdnTransfer { conv_len: 192, state_len: 256 });
    assert_eq!(plans.gdn, vec![None, whole, None, None]);
    for (i, plan) in plans.attn.iter().enumerate() {
        attn.push(match plan {
            None => None,
            Some(AttnTransfer::Dense(d)) => {
                Some(AttnLayerBytes::DenseF16 { k: vec![0; d.len], v: vec![0; d.len] })
            }
            Some(AttnTransfer::Mixed(_)) => match cache.attn_mut(i).unwrap() {
                AttnLayerCache::Mixed(p) => Some(captured_mixed(p)),
                other => panic!("unexpected {other:?}"),
            },
        });
    }
    let state = GdnLayerState::new(&cfg.gdn);
    let layer = GdnLayerBytes {
        conv_state: vec![0; state.conv_len],
        state: vec![0; state.state_len],
    };
    let gdn = vec![None, Some(layer), None, None];
    let total: usize = gdn.iter().flatten().map(|g| g.byte_size()).sum::<usize>()
        + attn.iter().flatten().map(|a| a.byte_size()).sum::<usize>();
    assert_eq!(cache.snapshot_byte_size(f), total);

    advance(&mut cache, &[2], 13, 30);
    let planned = cache.check_restore(f, &gdn, &attn);
    assert_eq!((planned.transfers.gdn, planned.error), (plans.gdn.clone(), None));
    assert_eq!(window_base(&mut cache, 2), 28);
    let done = cache.restore_all(f, &gdn, &attn);
    assert_eq!(done.error, None);
    let moved = done.transfers;
    assert_eq!(moved.gdn, plans.gdn);
    assert_eq!(format!("{:?}", moved.attn), format!("{:?}", plans.attn));
    assert_eq!(window_base(&mut cache, 2), 12);

    // A window that no sequence of that length has is taken over too.
    assert!(cache.windows_are_at(13));
    let short = Filled { filled: 3, ..f };
    let mut short_attn = attn.clone();
    for i in [0, 3] {
        short_attn[i] = Some(AttnLayerBytes::DenseF16 { k: vec![0; 96], v: vec![0; 96] });
    }
    assert_eq!(cache.restore_all(short, &gdn, &short_attn).error, None);
    assert_eq!(window_base(&mut cache, 2), 12);
    assert!(!cache.windows_are_at(3));
    advance(&mut cache, &[2], 13, 30);
    assert_eq!(
        cache.restore_all(f, &gdn[..3], &attn).error,
        Some(ConfigError::LayerCount {
            gdn_found: 3,
            gdn_expected: 4,
            attn_found: 4,
            attn_expected: 4,
        })
    );
    assert_eq!(
        cache.restore_all(f, &[None, None, None, None], &attn).error,
        Some(ConfigError::GdnKindMismatch)
    );
    assert_eq!(
        cache.restore_all(f, &gdn, &[None, None, None, None]).error,
        Some(ConfigError::AttnKindMismatch)
    );
    assert_eq!(window_base(&mut cache, 2), 28);
    // A bad layer leaves those before it restored.
    let mut bad = attn.clone();
    bad[3] = None;
    let part = cache.restore_all(f, &gdn, &bad);
    assert_eq!(part.error, Some(ConfigError::AttnKindMismatch));
    assert_eq!((part.transfers.gdn.len(), part.transfers.attn.len()), (4, 3));
    assert_eq!(window_base(&mut cache, 2), 12);
    assert_eq!(cache.reset(), vec![GdnZero { layer: 1, conv_len: 192, state_len: 256 }]);
    assert_eq!(window_base(&mut cache, 2), 4);
}

/// Buffers as a device would hold them: what each element was written with.
type Memory = std::collections::BTreeMap<(String, usize), u64>;

/// Carries out a mixed cache's operations. The row buffers hold the appended
/// rows from element `base` on; element `i` of the rows is the number `i`,
/// marked for the values.
fn carry_out(mem: &mut Memory, ops: &[Op], base: usize) {
    let element = |buf: Buf, i: usize| match buf {
        Buf::AttnV => 1_000_000 + i as u64,
        _ => i as u64,
    };
    let mut evicted = 0;
    for op in ops {
        match *op {
            Op::CastF16 { src, dst, len } => {
                for i in 0..len as usize {
                    let value = element(src.buf, base + src.offset + i);
                    mem.insert((format!("{:?}", dst.buf), dst.offset + i), value);
                }
            }
            Op::ScatterKv {
                k_src, v_src, k_dst, v_dst, n_kv_heads, head_dim, max_seq, rows, pos_base, ..
            } => {
                let (heads, hd) = (n_kv_heads as usize, head_dim as usize);
                for (src, dst) in [(k_src, k_dst), (v_src, v_dst)] {
                    for row in 0..rows as usize {
                        for i in 0..heads * hd {
                            let (h, e) = (i / hd, i % hd);
                            let slot = pos_base as usize + row;
                            let at = (h * max_seq as usize + slot) * hd + e;
                            let value =
                                element(src.buf, base + src.offset + row * heads * hd + i);
                            mem.insert((format!("{dst:?}"), at), value);
                        }
                    }
                }
            }
            Op::QuantizeEvictK { block, .. } | Op::QuantizeEvictV { block, .. } => {
                // What was evicted depends on everything the window held.
                let keys = matches!(op, Op::QuantizeEvictK { .. });
                let window = if keys { "WindowK" } else { "WindowV" };
                let sum = mem
                    .iter()
                    .filter(|((buf, _), _)| buf == window)
                    .fold(7u64, |sum, ((_, at), v)| {
                        sum.wrapping_mul(31).wrapping_add(*at as u64 ^ *v)
                    });
                mem.insert((format!("Bulk of {window}"), block as usize), sum);
                evicted += 1;
            }
            ref other => panic!("unexpected {other:?}"),
        }
    }
    assert_eq!(evicted % 2, 0);
}

#[test]
fn a_chunk_leaves_in_the_buffers_what_its_rows_leave() {
    for (start, rows) in [(0, 3), (0, 4), (2, 11), (4, 8), (11, 1), (12, 20), (12, 0), (0, 60)] {
        let mut serial = MixedAttnPlane::new(2, 16, 64, 8, 4, 8, None);
        let mut chunked = MixedAttnPlane::new(2, 16, 64, 8, 4, 8, None);
        let mut before = Memory::new();
        for pos in 0..start {
            let mut ops = Vec::new();
            serial.append(&mut ops, pos);
            carry_out(&mut before, &ops, 5000 + pos as usize);
            chunked.append(&mut Vec::new(), pos);
        }
        let (mut one, mut other) = (before.clone(), before.clone());
        for row in 0..rows {
            let mut ops = Vec::new();
            serial.append(&mut ops, start + row);
            carry_out(&mut one, &ops, row as usize * 32);
        }
        let mut ops = Vec::new();
        chunked.append_chunk(&mut ops, start, rows);
        carry_out(&mut other, &ops, 0);
        assert_eq!(one, other, "{rows} rows at {start}");
        assert_eq!(rows == 0, ops.is_empty());
        assert_eq!(serial, chunked);
    }
}

fn pull<T: Copy + Default>(copies: &[RangeCopy], device: &[T], len: usize) -> Vec<T> {
    let mut host = vec![T::default(); len];
    for c in copies {
        host[c.host..c.host + c.len].copy_from_slice(&device[c.device..c.device + c.len]);
    }
    host
}

fn push<T: Copy>(copies: &[RangeCopy], host: &[T], device: &mut [T]) {
    for c in copies {
        device[c.device..c.device + c.len].copy_from_slice(&host[c.host..c.host + c.len]);
    }
}

#[test]
fn what_was_put_back_is_captured_again() {
    let mut p = MixedAttnPlane::new(2, 16, 64, 4, 4, 8, None);
    p.append_chunk(&mut Vec::new(), 0, 30);
    let bytes = captured_mixed(&p);
    p.append_chunk(&mut Vec::new(), 30, 20);
    let t = p.restore(&bytes).unwrap();
    let u = p.capture();
    assert_eq!((t.window_base, u.window_base), (28, 28));
    assert_eq!(u.lens.bulk_k_scales, 2 * 3 * 16);
    let codes: Vec<u32> = (1..=u.lens.bulk_v_codes as u32).collect();
    let mut device = vec![u32::MAX; 2 * 64 * 8];
    push(&t.bulk.v_codes, &codes, &mut device);
    assert_eq!(pull(&u.bulk.v_codes, &device, u.lens.bulk_v_codes), codes);
    // The second head's rows start where its own part of the buffer starts.
    assert_eq!(device[64 * 8], codes[24 * 8]);
    assert_eq!(device[24 * 8], u32::MAX);
}
