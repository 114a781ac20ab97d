//! The expert cache, routing and expert tensors.

use rocml::error::{ConfigError, TensorAxis};
use rocml::qwen35::moe::expert_cache::{
    cache_capacity, ExpertCache, SlotOffsets, EXPERT_CACHE_SAFETY_MARGIN_BYTES,
};
use rocml::qwen35::moe::expert_lru::ExpertLru;
use rocml::qwen35::moe::overlap::{routed_experts_overlap, OverlapStep};
use rocml::qwen35::moe::route::{group_by_expert, resolve_expert, resolve_experts};
use rocml::qwen35::moe::tensor::{
    max_expert_bytes, per_tensor_max_bytes, total_distinct_experts, ExpertTensorMeta,
    MoeFfnWeights,
};

#[test]
fn fresh_lookups_take_distinct_never_used_slots() {
    let mut lru = ExpertLru::new(4);
    let mut slots = Vec::new();
    for e in 0..4 {
        let (slot, hit) = lru.get_or_insert((0, e));
        assert!(!hit);
        slots.push(slot);
    }
    slots.sort_unstable();
    assert_eq!(slots, vec![0, 1, 2, 3]);
    assert_eq!(lru.occupancy(), 4);
}

#[test]
fn repeated_key_is_a_hit_and_keeps_its_slot() {
    let mut lru = ExpertLru::new(4);
    let (slot0, hit0) = lru.get_or_insert((1, 5));
    assert!(!hit0);
    for _ in 0..10 {
        let (slot, hit) = lru.get_or_insert((1, 5));
        assert!(hit);
        assert_eq!(slot, slot0);
    }
    // Repeated hits must never consume additional never-used slots.
    assert_eq!(lru.occupancy(), 1);
}

#[test]
fn eviction_picks_the_true_lru_entry_not_most_recent() {
    let mut lru = ExpertLru::new(2);
    let (slot_a, _) = lru.get_or_insert((0, 1));
    let (slot_b, _) = lru.get_or_insert((0, 2));
    // Touch A again so B becomes the least recently used.
    lru.get_or_insert((0, 1));
    // Inserting a third key must evict B, not A.
    let (slot_c, hit_c) = lru.get_or_insert((0, 3));
    assert!(!hit_c);
    assert_eq!(slot_c, slot_b, "must reuse B's slot, not A's");
    // A must still be resident (its slot content is still valid).
    let (slot_a_again, hit_a) = lru.get_or_insert((0, 1));
    assert!(hit_a);
    assert_eq!(slot_a_again, slot_a);
}

#[test]
fn global_key_distinguishes_same_expert_id_across_layers() {
    let mut lru = ExpertLru::new(4);
    let (slot_l0, _) = lru.get_or_insert((0, 7));
    let (slot_l1, _) = lru.get_or_insert((1, 7));
    assert_ne!(slot_l0, slot_l1);
    let (slot_l0_again, hit) = lru.get_or_insert((0, 7));
    assert!(hit);
    assert_eq!(slot_l0_again, slot_l0);
}

#[test]
fn capacity_one_thrashes_correctly() {
    let mut lru = ExpertLru::new(1);
    let (s0, hit0) = lru.get_or_insert((0, 1));
    assert!(!hit0);
    let (s1, hit1) = lru.get_or_insert((0, 2));
    assert!(!hit1);
    assert_eq!(s0, s1, "single slot must be reused");
    let (_, hit0_again) = lru.get_or_insert((0, 1));
    assert!(!hit0_again, "evicted key must miss again");
}

#[test]
fn filling_exactly_to_capacity_never_evicts() {
    let mut lru = ExpertLru::new(3);
    for e in 0..3 {
        lru.get_or_insert((9, e));
    }
    // All three must still be hits: capacity was never exceeded.
    for e in 0..3 {
        let (_, hit) = lru.get_or_insert((9, e));
        assert!(hit, "expert {e} should not have been evicted");
    }
}

#[test]
fn zero_capacity_yields_none() {
    let cache = ExpertCache::new(0, 1024, 1024, 1024, false);
    assert!(cache.is_none());
}

#[test]
fn cache_counts_hits_and_misses_and_places_slots() {
    let mut cache = ExpertCache::new(2, 100, 200, 300, false).unwrap();
    assert_eq!(cache.capacity(), 2);
    let first = cache.ensure_loaded((0, 5));
    assert!(!first.hit);
    assert_eq!(cache.stats(), (0, 1));
    let again = cache.ensure_loaded((0, 5));
    assert!(again.hit);
    assert_eq!(again.slot, first.slot);
    assert_eq!(cache.stats(), (1, 1));
    let second = cache.ensure_loaded((1, 9));
    assert!(!second.hit);
    assert_ne!(second.slot, first.slot);
    assert_eq!(
        second.offsets,
        SlotOffsets {
            gate: second.slot * 100,
            up: second.slot * 200,
            down: second.slot * 300,
        }
    );
    assert_eq!(cache.pool_lens(), SlotOffsets { gate: 200, up: 400, down: 600 });
    assert_eq!(cache.occupancy(), 2);
}

#[test]
fn single_slot_forces_a_fresh_miss() {
    let mut cache = ExpertCache::new(1, 10, 10, 10, false).unwrap();
    cache.ensure_loaded((0, 1));
    cache.ensure_loaded((0, 2));
    let back = cache.ensure_loaded((0, 1));
    assert!(!back.hit, "single slot must thrash, not hit");
    assert_eq!(cache.stats(), (0, 3));
}

#[test]
fn capacity_is_bounded_by_memory_experts_and_caller() {
    let margin = EXPERT_CACHE_SAFETY_MARGIN_BYTES;
    assert_eq!(margin, 512 * 1024 * 1024);
    assert_eq!(cache_capacity(margin + 1000, 100, 64, None), 10);
    assert_eq!(cache_capacity(margin + 1000, 100, 4, None), 4);
    assert_eq!(cache_capacity(margin + 1000, 100, 64, Some(3)), 3);
    assert_eq!(cache_capacity(margin + 1000, 100, 64, Some(0)), 0);
    assert_eq!(cache_capacity(margin, 100, 64, None), 0);
    assert_eq!(cache_capacity(0, 100, 64, None), 0);
    assert_eq!(cache_capacity(margin + 1000, 0, 64, None), 0);
    assert_eq!(cache_capacity(margin + 1000, 100, 0, None), 0);
}

#[test]
fn bad_expert_choices_are_refused() {
    assert_eq!(resolve_expert(3, 8), Ok(3));
    assert_eq!(
        resolve_expert(-1, 8),
        Err(ConfigError::InvalidExpertIndex { raw: -1, expert_count: 8 })
    );
    assert_eq!(
        resolve_expert(8, 8),
        Err(ConfigError::ExpertOutOfRange { expert: 8, expert_count: 8 })
    );
    assert_eq!(resolve_experts(&[1, 0, 7], 8), Ok(vec![1, 0, 7]));
    assert_eq!(
        resolve_experts(&[1, 9, -2], 8),
        Err(ConfigError::ExpertOutOfRange { expert: 9, expert_count: 8 })
    );
}

#[test]
fn assignments_are_grouped_by_expert() {
    // Three tokens, two experts each.
    let idx = [2, 0, 0, 1, 2, 1];
    let weights = [10, 11, 20, 21, 30, 31];
    let groups = group_by_expert(&idx, &weights, 3, 2, 4).unwrap();
    assert_eq!(groups.len(), 4);
    assert_eq!(groups[0], vec![(0, 11), (1, 20)]);
    assert_eq!(groups[1], vec![(1, 21), (2, 31)]);
    assert_eq!(groups[2], vec![(0, 10), (2, 30)]);
    assert!(groups[3].is_empty());
}

#[test]
fn copies_run_one_expert_ahead() {
    let mut cache = ExpertCache::new(4, 8, 8, 8, true).unwrap();
    let plan = routed_experts_overlap(&mut cache, 0, &[3, 1], 8).unwrap();
    assert_eq!(plan.experts, vec![3, 1]);
    assert_eq!(plan.steps[0], OverlapStep::CopyNow { k: 0 });
    let start = plan.steps.iter().position(|s| *s == OverlapStep::StartCopy { k: 1 }).unwrap();
    let first = plan.steps.iter().position(|s| *s == OverlapStep::Compute { k: 0 }).unwrap();
    let wait = plan.steps.iter().position(|s| *s == OverlapStep::WaitCopy).unwrap();
    let second = plan.steps.iter().position(|s| *s == OverlapStep::Compute { k: 1 }).unwrap();
    assert!(start < first && first < wait && wait < second);
    // Both are cached now: nothing is copied any more.
    let again = routed_experts_overlap(&mut cache, 0, &[3, 1], 8).unwrap();
    assert!(again.placements.iter().all(|p| p.hit));
    assert!(again
        .steps
        .iter()
        .all(|s| !matches!(s, OverlapStep::CopyNow { .. } | OverlapStep::StartCopy { .. })));
}

/// Gate tensor of a checkpoint with 256 experts of 512 by 2048, in blocks of
/// 256 elements and 144 bytes.
fn gate_meta() -> (ExpertTensorMeta, usize) {
    let per_expert = (512 * 2048 / 256) * 144;
    let data_len = per_expert * 256;
    let meta =
        ExpertTensorMeta::load(&[2048, 512, 256], 256, 144, data_len, 512, 2048, 256).unwrap();
    (meta, data_len)
}

#[test]
fn expert_slices_are_correctly_sized_and_non_overlapping() {
    let (meta, data_len) = gate_meta();
    let expected_per_expert = (512usize * 2048 / 256) * 144;
    assert_eq!(meta.per_expert_bytes, expected_per_expert);
    assert_eq!(data_len, meta.per_expert_bytes * 256);

    let sample_experts = [0u32, 1, 42, 128, 256 - 1];
    let mut slices = Vec::new();
    for &e in &sample_experts {
        let (start, end) = meta.expert_bytes(data_len, e).expect("expert_bytes");
        assert_eq!(end - start, meta.per_expert_bytes);
        assert_eq!(start, e as usize * meta.per_expert_bytes, "expert {e}: byte range mismatch");
        slices.push((start, end));
    }
    for i in 0..slices.len() {
        for j in (i + 1)..slices.len() {
            let (a0, a1) = slices[i];
            let (b0, b1) = slices[j];
            assert!(a1 <= b0 || b1 <= a0, "expert byte ranges must not overlap");
        }
    }
}

#[test]
fn expert_bytes_rejects_out_of_range_index() {
    let (meta, data_len) = gate_meta();
    assert!(meta.expert_bytes(data_len, 256).is_err());
    assert_eq!(
        meta.expert_bytes(data_len, 256),
        Err(ConfigError::ExpertSliceOutOfRange {
            expert: 256,
            bytes: data_len,
            per_expert: meta.per_expert_bytes,
        })
    );
}

#[test]
fn malformed_expert_tensors_are_refused() {
    let load = |shape: &[u64], block: usize, bytes: usize, len: usize| {
        ExpertTensorMeta::load(shape, block, bytes, len, 4, 8, 2).err().unwrap()
    };
    assert_eq!(
        load(&[8, 4], 32, 18, 36),
        ConfigError::TensorNotThreeDimensional { dims: 2 }
    );
    assert_eq!(
        load(&[1 << 33, 4, 2], 32, 18, 36),
        ConfigError::TensorDimOverflow { axis: TensorAxis::N, value: 1 << 33 }
    );
    assert_eq!(
        load(&[8, 4, 3], 32, 18, 36),
        ConfigError::TensorShapeMismatch { n: 8, m: 4, experts: 3 }
    );
    assert_eq!(load(&[8, 4, 2], 0, 18, 36), ConfigError::NoBlockLayout);
    assert_eq!(
        load(&[8, 4, 2], 31, 18, 36),
        ConfigError::NotBlockMultiple { elements: 32, block: 31 }
    );
    assert_eq!(
        load(&[8, 4, 2], 32, 18, 35),
        ConfigError::TensorBytesMismatch { found: 35, expected: 36 }
    );
    let ok = ExpertTensorMeta::load(&[8, 4, 2], 32, 18, 36, 4, 8, 2).unwrap();
    assert_eq!(ok.per_expert_bytes, 18);
}

fn expert(bytes: usize) -> ExpertTensorMeta {
    ExpertTensorMeta { m: 1, n: 1, per_expert_bytes: bytes }
}

#[test]
fn strides_are_the_largest_of_each_kind() {
    let layers = [
        Some(MoeFfnWeights { gate: expert(10), up: expert(20), down: expert(5) }),
        None,
        Some(MoeFfnWeights { gate: expert(7), up: expert(30), down: expert(6) }),
    ];
    assert_eq!(per_tensor_max_bytes(&layers), (10, 30, 6));
    assert_eq!(max_expert_bytes(&layers), 30);
    assert_eq!(total_distinct_experts(&layers, 16), 32);
    assert_eq!(layers[0].unwrap().max_expert_bytes(), 20);
    assert_eq!(per_tensor_max_bytes(&[None]), (0, 0, 0));
}

/// Gate matrices of two layers with ten experts of three bytes each.
fn layer_data() -> [Vec<u8>; 2] {
    [(0..30).collect(), (100..130).collect()]
}

/// Gives an expert its slot, and copies its bytes there unless they are there.
fn load(cache: &mut ExpertCache, pool: &mut [u8], data: &[u8], key: (u32, u32)) -> usize {
    let meta = expert(3);
    let p = cache.ensure_loaded(key);
    if p.hit {
        return 0;
    }
    let (from, to) = meta.expert_bytes(data.len(), key.1).unwrap();
    pool[p.offsets.gate..p.offsets.gate + 3].copy_from_slice(&data[from..to]);
    to - from
}

#[test]
fn cache_hit_serves_bit_identical_bytes_without_a_recopy() {
    let data = layer_data();
    let mut cache = ExpertCache::new(2, 3, 3, 3, false).expect("capacity 2 must yield Some");
    let mut pool = vec![0u8; cache.pool_lens().gate];

    assert_eq!(load(&mut cache, &mut pool, &data[0], (0, 5)), 3);
    assert_eq!(cache.stats(), (0, 1));
    assert_eq!(pool[..3], data[0][15..18]);

    assert_eq!(load(&mut cache, &mut pool, &data[0], (0, 5)), 0);
    assert_eq!(cache.stats(), (1, 1));
    assert_eq!(pool[..3], data[0][15..18]);

    assert_eq!(load(&mut cache, &mut pool, &data[1], (1, 9)), 3);
    assert_eq!(cache.stats(), (1, 2));
    assert_eq!(pool[3..], data[1][27..30]);
    assert_eq!(pool[..3], data[0][15..18]);
}

#[test]
fn eviction_forces_a_fresh_miss_and_copy() {
    let data = layer_data();
    let mut cache = ExpertCache::new(1, 3, 3, 3, false).expect("capacity 1 must yield Some");
    let mut pool = vec![0u8; cache.pool_lens().gate];
    load(&mut cache, &mut pool, &data[0], (0, 1));
    load(&mut cache, &mut pool, &data[0], (0, 2));
    assert_eq!(cache.stats(), (0, 2), "single slot must thrash, not hit");
    assert_eq!(pool, data[0][6..9]);
}

#[test]
fn repeated_access_does_not_reregister_or_fail() {
    let (meta, data_len) = gate_meta();
    for _ in 0..3 {
        assert!(meta.expert_bytes(data_len, 0).is_ok());
    }
}
