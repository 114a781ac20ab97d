//! The memory tier, the disk tier and the store over both. Files are kept in
//! a map.

use std::collections::BTreeMap;
use std::sync::Arc;

use rocml::load_opts::KvCacheMode;
use rocml::snapshot::codec::encode;
use rocml::snapshot::disk::{DiskIndex, DiskStore};
use rocml::snapshot::frame::frame;
use rocml::snapshot::ram::RamStore;
use rocml::snapshot::types::{GdnLayerBytes, KvConfigStamp, ModelStamp, SnapshotData};
use rocml::snapshot::{SnapshotStore, SnapshotTier};

fn stamp() -> ModelStamp {
    ModelStamp { gguf_path: "/checkpoints/model.gguf".to_string(), file_len: 123 }
}

fn kv() -> KvConfigStamp {
    KvConfigStamp { mode: KvCacheMode::Fp16, ctx: 8192 }
}

fn fake_snapshot(token_ids: Vec<u32>, filler_f32_count: usize) -> SnapshotData {
    SnapshotData {
        position: token_ids.len() as u32,
        token_ids,
        gdn: vec![Some(GdnLayerBytes {
            conv_state: vec![0; filler_f32_count],
            state: vec![0; filler_f32_count],
        })],
        attn: vec![None],
    }
}

fn fake(token_ids: Vec<u32>) -> SnapshotData {
    SnapshotData {
        position: token_ids.len() as u32,
        token_ids,
        gdn: vec![Some(GdnLayerBytes {
            conv_state: vec![1.0f32.to_bits(); 16],
            state: vec![2.0f32.to_bits(); 16],
        })],
        attn: vec![None],
    }
}

/// A directory.
type Files = BTreeMap<String, Vec<u8>>;

fn open(budget: u64) -> DiskStore {
    DiskStore::open(DiskIndex { entries: Vec::new(), tick: 0 }, budget)
}

fn insert(store: &mut DiskStore, files: &mut Files, data: &SnapshotData) {
    if let Some(pending) = store.prepare_insert(&stamp(), &kv(), data) {
        files.insert(pending.entry.file_name.clone(), pending.contents.clone());
        for name in store.insert(pending) {
            files.remove(&name);
        }
    }
}

fn find_best(store: &mut DiskStore, files: &mut Files, ids: &[u32]) -> Option<SnapshotData> {
    while let Some(name) = store.find_best(&stamp(), &kv(), ids) {
        let contents = files.get(&name).cloned();
        match store.accept(&name, contents.as_deref()) {
            Some(data) => return Some(data),
            None => {
                files.remove(&name);
            }
        }
    }
    None
}

#[test]
fn exact_prefix_match_wins_and_longest_wins() {
    let mut store = RamStore::new(1_000_000);
    let full: Vec<u32> = (0..100).collect();
    store.insert(stamp(), kv(), fake_snapshot(full[..40].to_vec(), 4));
    store.insert(stamp(), kv(), fake_snapshot(full[..80].to_vec(), 4));

    let hit = store.find_best(&stamp(), &kv(), &full).expect("expected a hit");
    assert_eq!(hit.position, 80);
}

#[test]
fn diverging_suffix_falls_back_to_shorter_match() {
    let mut store = RamStore::new(1_000_000);
    let full: Vec<u32> = (0..100).collect();
    let mut diverged = full[..80].to_vec();
    diverged[75] += 1;
    store.insert(stamp(), kv(), fake_snapshot(full[..40].to_vec(), 4));
    store.insert(stamp(), kv(), fake_snapshot(diverged, 4));

    let hit = store
        .find_best(&stamp(), &kv(), &full)
        .expect("expected a hit at the shorter, non-diverging prefix");
    assert_eq!(hit.position, 40);
}

#[test]
fn model_or_kv_mismatch_is_a_miss() {
    let mut store = RamStore::new(1_000_000);
    let full: Vec<u32> = (0..50).collect();
    store.insert(stamp(), kv(), fake_snapshot(full[..30].to_vec(), 4));

    let other_model =
        ModelStamp { gguf_path: "/checkpoints/other.gguf".to_string(), file_len: 456 };
    assert!(store.find_best(&other_model, &kv(), &full).is_none());

    let other_kv = KvConfigStamp { mode: KvCacheMode::Q8, ctx: 8192 };
    assert!(store.find_best(&stamp(), &other_kv, &full).is_none());
}

#[test]
fn full_length_prefix_is_never_offered_as_a_hit() {
    let mut store = RamStore::new(1_000_000);
    let full: Vec<u32> = (0..20).collect();
    store.insert(stamp(), kv(), fake_snapshot(full.clone(), 4));
    // A hit here would leave nothing to prefill.
    assert!(store.find_best(&stamp(), &kv(), &full).is_none());
}

#[test]
fn lru_eviction_drops_the_least_recently_used_entry() {
    // Every snapshot has the same byte size: exactly two fit the budget.
    let per_entry_floats = 100usize;
    let bytes_per_entry = fake_snapshot(vec![1; 10], per_entry_floats).byte_size();
    let mut store = RamStore::new(bytes_per_entry * 2 + 8);

    store.insert(stamp(), kv(), fake_snapshot(vec![1; 10], per_entry_floats));
    store.insert(stamp(), kv(), fake_snapshot(vec![2; 10], per_entry_floats));
    // Touch the first one so it is more recently used than the second.
    assert!(store
        .find_best(&stamp(), &kv(), &[1; 11])
        .is_some_and(|s| s.position == 10));
    // Inserting a third entry must evict the second.
    store.insert(stamp(), kv(), fake_snapshot(vec![3; 10], per_entry_floats));

    assert!(store.find_best(&stamp(), &kv(), &[1; 11]).is_some());
    assert!(store.find_best(&stamp(), &kv(), &[2; 11]).is_none());
    assert!(store.find_best(&stamp(), &kv(), &[3; 11]).is_some());
    assert_eq!(store.used_bytes(), bytes_per_entry * 2);
}

#[test]
fn repeated_lookup_returns_the_same_immutable_data() {
    let mut store = RamStore::new(1_000_000);
    let full: Vec<u32> = (0..10).collect();
    store.insert(stamp(), kv(), fake_snapshot(full[..5].to_vec(), 4));
    let first = store.find_best(&stamp(), &kv(), &full).unwrap();
    let second = store.find_best(&stamp(), &kv(), &full).unwrap();
    assert!(Arc::ptr_eq(&first, &second), "restore must never mutate a stored snapshot");
    assert_eq!(*first, *second);
}

#[test]
fn zero_budget_disables_the_store() {
    let mut store = RamStore::new(0);
    assert!(!store.is_enabled());
    store.insert(stamp(), kv(), fake_snapshot(vec![1, 2, 3], 4));
    assert_eq!(store.len(), 0);
    assert!(store.is_empty());
    assert!(store.find_best(&stamp(), &kv(), &[1, 2, 3, 4]).is_none());
}

#[test]
fn oversized_snapshot_is_not_stored() {
    let data = fake_snapshot(vec![1, 2, 3], 100);
    let mut store = RamStore::new(data.byte_size() - 1);
    store.insert(stamp(), kv(), data);
    assert!(store.is_empty());
}

#[test]
fn storing_the_same_prefix_replaces_it() {
    let mut store = RamStore::new(1_000_000);
    store.insert(stamp(), kv(), fake_snapshot(vec![1, 2, 3], 4));
    store.insert(stamp(), kv(), fake_snapshot(vec![1, 2, 3], 8));
    assert_eq!(store.len(), 1);
    let hit = store.find_best(&stamp(), &kv(), &[1, 2, 3, 4]).unwrap();
    assert_eq!(*hit, fake_snapshot(vec![1, 2, 3], 8));
}

#[test]
fn roundtrips_through_disk() {
    let mut files = Files::new();
    let mut store = open(10_000_000);
    let full: Vec<u32> = (0..50).collect();
    insert(&mut store, &mut files, &fake(full[..30].to_vec()));

    let hit = find_best(&mut store, &mut files, &full).expect("miss");
    assert_eq!(hit.position, 30);
    assert_eq!(hit.token_ids, full[..30]);
    assert_eq!(hit, fake(full[..30].to_vec()));
}

#[test]
fn corrupted_file_is_deleted_and_treated_as_a_miss() {
    let mut files = Files::new();
    let mut store = open(10_000_000);
    let full: Vec<u32> = (0..20).collect();
    insert(&mut store, &mut files, &fake(full[..10].to_vec()));
    let file_name = store.index().entries[0].file_name.clone();

    let bytes = files.get_mut(&file_name).unwrap();
    let last = bytes.len() - 1;
    bytes[last] ^= 0xFF;

    assert!(find_best(&mut store, &mut files, &full).is_none());
    assert!(!files.contains_key(&file_name), "corrupt file should have been deleted");
    assert!(store.index().entries.is_empty());
}

#[test]
fn unreadable_file_is_treated_as_a_miss() {
    let mut files = Files::new();
    let mut store = open(10_000_000);
    let full: Vec<u32> = (0..20).collect();
    insert(&mut store, &mut files, &fake(full[..10].to_vec()));
    files.clear();
    assert!(find_best(&mut store, &mut files, &full).is_none());
    assert!(store.is_empty());
}

#[test]
fn size_budgeted_eviction_drops_oldest_touched_entry() {
    let mut files = Files::new();
    // Every entry has the same framed byte size: exactly two fit the budget.
    let one_entry_bytes = frame(&encode(&fake((0..10).collect()))).len() as u64;
    let mut store = open(one_entry_bytes * 2 + 8);

    insert(&mut store, &mut files, &fake((100..110).collect()));
    insert(&mut store, &mut files, &fake((200..210).collect()));
    // Touch the first so the second becomes the victim.
    assert!(find_best(&mut store, &mut files, &(100..111).collect::<Vec<_>>()).is_some());
    insert(&mut store, &mut files, &fake((300..310).collect()));

    assert!(find_best(&mut store, &mut files, &(100..111).collect::<Vec<_>>()).is_some());
    assert!(find_best(&mut store, &mut files, &(200..211).collect::<Vec<_>>()).is_none());
    assert_eq!(store.used_bytes(), one_entry_bytes * 2);
    assert_eq!(files.len(), 2);
    assert_eq!(store.len(), 2);
}

#[test]
fn zero_budget_disables_writes() {
    let mut files = Files::new();
    let mut store = open(0);
    insert(&mut store, &mut files, &fake((0..10).collect()));
    assert_eq!(store.len(), 0);
    assert!(files.is_empty());
}

#[test]
fn file_names_tell_snapshots_apart() {
    let name = DiskStore::file_name(&stamp(), &kv(), 10, 0xabc);
    assert!(name.ends_with("-0000000000000abc-10.snap"));
    assert_ne!(name, DiskStore::file_name(&stamp(), &kv(), 11, 0xabc));
    assert_ne!(name, DiskStore::file_name(&stamp(), &kv(), 10, 0xabd));
    assert_eq!(DiskStore::index_path(), "index.json");
}

#[test]
fn ram_only_store_serves_hits() {
    let mut store = SnapshotStore::new(1_000_000, None);
    let full: Vec<u32> = (0..30).collect();
    store.insert(stamp(), kv(), fake(full[..15].to_vec()));
    let hit = store.lookup(&stamp(), &kv(), &full, None).unwrap();
    assert_eq!(hit.position, 15);
    assert!(store.ram_used_bytes() > 0);
}

/// Every file is indexed once, and no two records were used at one tick.
fn assert_orderly(store: &DiskStore) {
    let index = store.index();
    for (i, a) in index.entries.iter().enumerate() {
        assert!(a.last_used <= index.tick);
        for b in &index.entries[..i] {
            assert_ne!(a.file_name, b.file_name);
            assert_ne!(a.last_used, b.last_used);
        }
    }
}

#[test]
fn the_disk_index_stays_in_order() {
    let mut files = Files::default();
    let ids: Vec<u32> = (0..40).collect();
    let one = fake(ids[..10].to_vec());
    let size = {
        let mut probe = open(10_000_000);
        insert(&mut probe, &mut files, &one);
        probe.used_bytes()
    };
    files.clear();
    // Room for two.
    let mut store = open(size * 5 / 2);
    insert(&mut store, &mut files, &one);
    insert(&mut store, &mut files, &fake(ids[1..11].to_vec()));
    // Stored again under its name, not beside it.
    insert(&mut store, &mut files, &one);
    assert_eq!((store.len(), files.len()), (2, 2));
    assert_orderly(&store);
    // Just read: the other one is the oldest now.
    assert!(find_best(&mut store, &mut files, &ids[1..12]).is_some());
    assert_orderly(&store);
    insert(&mut store, &mut files, &fake(ids[2..12].to_vec()));
    assert_eq!((store.len(), files.len()), (2, 2));
    assert_orderly(&store);
    assert!(store.used_bytes() <= size * 5 / 2);
    assert!(find_best(&mut store, &mut files, &ids[..11]).is_none());
    assert!(find_best(&mut store, &mut files, &ids[1..12]).is_some());
    assert!(find_best(&mut store, &mut files, &ids[2..13]).is_some());
    let newest = store.index().entries.iter().max_by_key(|e| e.last_used).unwrap();
    assert_eq!(newest.token_ids, ids[2..12].to_vec());
    assert_eq!(newest.last_used, store.index().tick);
}

#[test]
fn disk_promotes_a_longer_match_into_ram() {
    let mut files = Files::new();
    let full: Vec<u32> = (0..30).collect();
    // A snapshot that an earlier run left on disk only.
    let mut disk = open(10_000_000);
    insert(&mut disk, &mut files, &fake(full[..20].to_vec()));
    let mut store = SnapshotStore::new(1_000_000, Some(disk));
    assert!(store.disk().is_some());
    // In memory, a shorter one.
    let pending = store.insert(stamp(), kv(), fake(full[..5].to_vec()));
    assert!(pending.is_some());

    let name = store.disk_candidate(&stamp(), &kv(), &full).unwrap();
    let on_disk = store.disk_answer(&name, files.get(&name).map(|b| &b[..]));
    let (hit, tier) = store.lookup_with_tier(&stamp(), &kv(), &full, on_disk).unwrap();
    assert_eq!(hit.position, 20, "disk's longer match should win over RAM's shorter one");
    assert_eq!(tier, SnapshotTier::Disk);

    // Promoted: memory alone serves it now.
    let (ram_hit, tier) = store.lookup_with_tier(&stamp(), &kv(), &full, None).unwrap();
    assert_eq!(ram_hit.position, 20);
    assert_eq!(tier, SnapshotTier::Ram);
}

#[test]
fn disabled_disk_tier_still_serves_ram() {
    let mut store = SnapshotStore::new(1_000_000, None);
    assert_eq!(store.disk_used_bytes(), 0);
    let pending = store.insert(stamp(), kv(), fake((0..10).collect()));
    assert!(pending.is_none());
    assert!(store
        .lookup(&stamp(), &kv(), &(0..11).collect::<Vec<_>>(), None)
        .is_some());
}

#[test]
fn written_files_are_recorded() {
    let mut store = SnapshotStore::new(1_000_000, Some(open(10_000_000)));
    let pending = store.insert(stamp(), kv(), fake((0..10).collect())).unwrap();
    let size = pending.contents.len() as u64;
    assert!(store.written(pending).is_empty());
    assert_eq!(store.disk_used_bytes(), size);
}

#[test]
fn only_what_fits_the_budget_would_be_kept() {
    let store = RamStore::new(100);
    assert!(store.would_keep(100));
    assert!(!store.would_keep(101));
    assert!(!RamStore::new(0).would_keep(0));
    assert!(SnapshotStore::new(100, None).would_keep(7));
}

#[test]
fn the_pinned_snapshot_is_never_evicted() {
    let each = fake_snapshot(vec![1; 10], 25).byte_size();
    let mut store = RamStore::new(2 * each + 10);
    store.insert_pinned(stamp(), kv(), fake_snapshot(vec![1; 10], 25));
    // What fits the budget only without the pinned one is not kept.
    assert!(store.would_keep(each + 10));
    assert!(!store.would_keep(each + 11));
    assert!(store.would_keep_pinned(2 * each + 10));
    assert!(!store.would_keep_pinned(2 * each + 11));
    store.insert(stamp(), kv(), fake_snapshot(vec![2; 10], 25));
    store.insert(stamp(), kv(), fake_snapshot(vec![3; 10], 25));
    assert_eq!(store.used_bytes(), 2 * each);
    assert!(store.find_best(&stamp(), &kv(), &[1; 11]).is_some());
    assert!(store.find_best(&stamp(), &kv(), &[2; 11]).is_none());
    assert!(store.find_best(&stamp(), &kv(), &[3; 11]).is_some());
    // The next pinned one takes its place; the old one becomes ordinary.
    store.insert_pinned(stamp(), kv(), fake_snapshot(vec![4; 10], 25));
    assert!(store.find_best(&stamp(), &kv(), &[4; 11]).is_some());
    assert!(store.find_best(&stamp(), &kv(), &[1; 11]).is_some());
    assert!(store.find_best(&stamp(), &kv(), &[3; 11]).is_none());
    store.insert(stamp(), kv(), fake_snapshot(vec![5; 10], 25));
    assert!(store.find_best(&stamp(), &kv(), &[1; 11]).is_none());
    assert!(store.find_best(&stamp(), &kv(), &[4; 11]).is_some());
    assert_eq!(store.len(), 2);
}

#[test]
fn both_tiers_take_a_pinned_snapshot() {
    let bytes = fake((0..10).collect()).byte_size();
    let mut store = SnapshotStore::new(bytes, Some(open(10_000_000)));
    assert!(store.would_keep_pinned(bytes));
    let pending = store.insert_pinned(stamp(), kv(), fake((0..10).collect())).unwrap();
    assert_eq!(pending.contents, frame(&encode(&fake((0..10).collect()))));
    assert!(!store.would_keep(1));
    assert!(store.would_keep_pinned(bytes));
    store.insert(stamp(), kv(), fake((5..15).collect()));
    let ids: Vec<u32> = (0..11).collect();
    assert!(store.lookup(&stamp(), &kv(), &ids, None).is_some());
}

#[test]
fn a_search_passes_over_broken_files() {
    let full: Vec<u32> = (0..100).collect();
    let mut files = Files::new();
    let mut store = open(10_000_000);
    for n in [10, 20, 30, 40] {
        insert(&mut store, &mut files, &fake(full[..n].to_vec()));
    }
    let name = |store: &DiskStore, n: u32| {
        let found = store.index().entries.iter().find(|e| e.position == n);
        found.map(|e| e.file_name.clone())
    };
    // The longest is gone, the next is damaged.
    files.remove(&name(&store, 40).unwrap());
    files.get_mut(&name(&store, 30).unwrap()).unwrap()[9] ^= 1;
    let hit = find_best(&mut store, &mut files, &full).unwrap();
    assert_eq!(hit.position, 20);
    assert_eq!(name(&store, 40), None);
    assert_eq!(name(&store, 30), None);
    assert!(name(&store, 10).is_some());
    assert_eq!(store.len(), 2);
    assert_eq!(files.len(), 2);
    files.clear();
    assert!(find_best(&mut store, &mut files, &full).is_none());
    assert!(store.is_empty());
}
