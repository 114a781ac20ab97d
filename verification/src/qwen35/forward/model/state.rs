//! Starting over, going back, and carrying the state of a sequence from one
//! process to the next.

use super::{point_usable, Model, ModelState};
use crate::error::{ConfigError, ErrorModel, RocmlError};
use crate::qwen35::cache::hybrid::rewind::{
    fresh_storage, layout_matches, law_rewind_gives_back_what_was_saved, rewound_cache,
    rewound_layer, same_but_window, saved_storage, window_restorable, StorageModel,
};
use crate::qwen35::cache::hybrid::snapshot::{
    cache_bytes, cache_transfers, captured, is_restore_plan,
    law_restoring_gives_back_what_was_captured, lemma_whole_snapshot_put_back, put_back,
    restore_all_error, restored_cache, restored_to, CacheTransfers, Filled, RestorePlan,
};
use crate::qwen35::cache::hybrid::state::{
    after_copies, exchanged, holds_state, law_saved_state_comes_back, lemma_copies_exchanged,
    state_copies, zeroings, GdnZero, Place, Side, StateCopy,
};
use crate::qwen35::cache::hybrid::{
    cache_valid, is_mixed, reset_cache, reset_layer, AttnCacheModel, HybridModel,
};
use crate::qwen35::config::ConfigModel;
use crate::qwen35::forward::layer::{layer_at, layer_fits, layer_ok};
use crate::qwen35::forward::model::pass::lemma_point_kept;
use crate::qwen35::forward::rewind::{
    invalidated, invalidated_above, valid_prefix, PointModel, RewindPoint, RewindSlot,
};
use crate::snapshot::types::{SnapshotData, SnapshotModel};
use vstd::prelude::*;

verus! {

/// A model at the start of a fresh sequence.
pub open spec fn reset_model(s: ModelState) -> ModelState {
    ModelState {
        cache: reset_cache(s.cache),
        points: s.points.none_valid(),
        pos: 0,
        begun: None,
        pending: None,
        ..s
    }
}

/// A rewind point of the state a model is in, in storage that a slot has
/// already or that is made for it.
pub open spec fn saved_point(s: ModelState, slot: RewindSlot, ids: Seq<u32>) -> PointModel {
    PointModel {
        prefix: Some(ids),
        storage: match s.points.slot(slot) {
            Some(p) => saved_storage(s.cache, p.storage),
            None => saved_storage(s.cache, fresh_storage(s.cache)),
        },
    }
}

/// A model that was rewound to a slot's prefix.
pub open spec fn rewound_model(s: ModelState, slot: RewindSlot) -> ModelState {
    let p = s.points.slot(slot)->0;
    let n = p.prefix->0.len();
    ModelState {
        cache: rewound_cache(s.cache, p.storage),
        points: s.points.none_valid_above(n as int),
        pos: n as u32,
        begun: None,
        pending: None,
        ..s
    }
}

/// What a model's dense planes share, filled to a position.
pub open spec fn filled_to(c: ConfigModel, position: u32) -> Filled {
    Filled { n_kv_heads: c.head_count_kv, head_dim: c.head_dim, filled: position }
}

/// Why a snapshot is refused, if it is.
pub open spec fn snapshot_error(s: ModelState, snap: SnapshotModel) -> Option<ErrorModel> {
    if snap.position > s.cache.max_seq {
        Some(
            ErrorModel::ContextOverflow { requested: snap.position, max_seq: s.cache.max_seq },
        )
    } else {
        match restore_all_error(
            s.cache,
            filled_to(s.config, snap.position),
            snap.gdn,
            snap.attn,
        ) {
            Some(e) => Some(ErrorModel::Config(e)),
            None => None,
        }
    }
}

/// A model that a snapshot was put into.
pub open spec fn restored_model(s: ModelState, snap: SnapshotModel) -> ModelState {
    ModelState {
        cache: restored_cache(s.cache, snap.attn),
        points: s.points.none_valid(),
        pos: snap.position,
        begun: None,
        pending: None,
        ..s
    }
}

/// A model after a snapshot was refused: where one of its layers is at fault,
/// those before it have been put back, while the position stays.
pub open spec fn partly_restored(s: ModelState, snap: SnapshotModel) -> ModelState {
    if snap.position > s.cache.max_seq || snap.gdn.len() != s.cache.gdn.len() || snap.attn.len()
        != s.cache.attn.len() {
        s
    } else {
        let f = filled_to(s.config, snap.position);
        ModelState {
            cache: restored_to(
                s.cache,
                snap.attn,
                put_back(s.cache, f, snap.gdn, snap.attn).1,
            ),
            points: s.points.none_valid(),
            begun: None,
            pending: None,
            ..s
        }
    }
}

/// However the position is moved back, no point past it stays valid, and the
/// configuration, the weights and the experts stay.
pub proof fn law_moving_back_drops_later_points(
    s: ModelState,
    slot: RewindSlot,
    snap: SnapshotModel,
    other: RewindSlot,
)
    requires
        valid_prefix(s.points.slot(slot)) is Some,
        valid_prefix(s.points.slot(slot))->0.len() <= u32::MAX,
    ensures
        ({
            let x = valid_prefix(s.points.slot(slot))->0;
            let rewound = rewound_model(s, slot);
            &&& rewound.pos == x.len()
            &&& valid_prefix(rewound.points.slot(slot)) == Some(x)
            &&& valid_prefix(rewound.points.slot(other)) matches Some(y) ==> y.len() <= rewound.pos
                && valid_prefix(s.points.slot(other)) == Some(y)
        }),
        reset_model(s).pos == 0,
        valid_prefix(reset_model(s).points.slot(other)) is None,
        restored_model(s, snap).pos == snap.position,
        valid_prefix(restored_model(s, snap).points.slot(other)) is None,
        ({
            let moved = (reset_model(s), rewound_model(s, slot), restored_model(s, snap));
            &&& moved.0.layers == s.layers && moved.1.layers == s.layers && moved.2.layers
                == s.layers
            &&& moved.0.config == s.config && moved.1.config == s.config && moved.2.config
                == s.config
            &&& moved.0.experts == s.experts && moved.1.experts == s.experts && moved.2.experts
                == s.experts
            &&& moved.0.pending is None && moved.1.pending is None && moved.2.pending is None
            &&& moved.0.begun is None && moved.1.begun is None && moved.2.begun is None
        }),
{
}

/// What a snapshot of the current state is made of.
#[derive(Debug)]
pub struct CapturePlan {
    pub position: u32,
    pub token_ids: Vec<u32>,
    /// What to copy from each layer.
    pub transfers: CacheTransfers,
}

/// What rewinding to a slot takes.
#[derive(Debug, PartialEq, Eq)]
pub struct RewindPlan {
    pub slot: RewindSlot,
    /// The position it leads to.
    pub position: u32,
    /// What to copy back.
    pub copies: Vec<StateCopy>,
}

/// Whether a plan rewinds to the slot that serves a prompt, or there is none.
pub open spec fn is_rewind_plan(s: ModelState, ids: Seq<u32>, r: Option<RewindPlan>) -> bool {
    match (s.points.best_slot(ids), r) {
        (None, None) => true,
        (Some(slot), Some(plan)) => {
            &&& plan.slot == slot
            &&& plan.position == rewound_model(s, slot).pos
            &&& plan.copies@ == state_copies(s.cache, Side::Saved, Side::Live)
        },
        _ => false,
    }
}

proof fn lemma_invalidated_usable(
    c: ConfigModel,
    m: HybridModel,
    n: HybridModel,
    p: Option<PointModel>,
)
    requires
        point_usable(c, m, p),
        n.max_seq == m.max_seq,
        n.gdn == m.gdn,
        n.attn.len() == m.attn.len(),
        forall|i: int|
            0 <= i < n.attn.len() ==> is_mixed(m.attn[i]) == is_mixed(#[trigger] n.attn[i]),
    ensures
        point_usable(c, n, invalidated(p)),
{
    match p {
        None => {},
        Some(x) => {
            assert forall|i: int| 0 <= i < n.attn.len() implies is_mixed(#[trigger] n.attn[i])
                == (x.storage.mixed[i] is Some) by {
                assert(is_mixed(m.attn[i]) == (x.storage.mixed[i] is Some));
            }
        },
    }
}

proof fn lemma_reset_valid(s: ModelState)
    requires
        s.valid(),
        reset_cache(s.cache).valid(),
    ensures
        reset_model(s).valid(),
        reset_model(s).settled(),
{
    let t = reset_model(s);
    assert forall|i: int| 0 <= i < t.cache.attn.len() implies layer_at(
        t.config,
        #[trigger] t.cache.attn[i],
        t.cache.max_seq,
        t.layer_pos(i),
    ) && is_mixed(s.cache.attn[i]) == is_mixed(t.cache.attn[i]) by {
        assert(cache_valid(t.cache.attn[i]));
        assert(layer_ok(s.config, s.cache.attn[i], s.cache.max_seq));
        assert(t.cache.attn[i] == reset_layer(s.cache.attn[i]));
    }
    lemma_invalidated_usable(s.config, s.cache, t.cache, s.points.stable_boundary);
    lemma_invalidated_usable(s.config, s.cache, t.cache, s.points.end_of_turn);
    assert forall|i: int| 0 <= i < t.layers.len() implies layer_fits(
        t.config,
        t.cache,
        #[trigger] t.layers[i],
        i,
    ) by {
        assert(layer_fits(s.config, s.cache, s.layers[i], i));
    }
}

/// Putting back a snapshot's first layers, up to any position, keeps a model
/// consistent.
proof fn lemma_restored_valid(s: ModelState, snap: SnapshotModel, n: int, pos: u32)
    requires
        s.valid(),
        snap.attn.len() == s.cache.attn.len(),
        restored_to(s.cache, snap.attn, n).valid(),
        pos <= s.cache.max_seq,
    ensures
        (ModelState {
            cache: restored_to(s.cache, snap.attn, n),
            points: s.points.none_valid(),
            pos,
            begun: None,
            pending: None,
            ..s
        }).valid(),
{
    let t = ModelState {
        cache: restored_to(s.cache, snap.attn, n),
        points: s.points.none_valid(),
        pos,
        begun: None,
        pending: None,
        ..s
    };
    assert forall|i: int| 0 <= i < t.cache.attn.len() implies layer_ok(
        t.config,
        #[trigger] t.cache.attn[i],
        t.cache.max_seq,
    ) && is_mixed(s.cache.attn[i]) == is_mixed(t.cache.attn[i]) by {
        assert(cache_valid(t.cache.attn[i]));
        assert(layer_ok(s.config, s.cache.attn[i], s.cache.max_seq));
    }
    lemma_invalidated_usable(s.config, s.cache, t.cache, s.points.stable_boundary);
    lemma_invalidated_usable(s.config, s.cache, t.cache, s.points.end_of_turn);
    assert forall|i: int| 0 <= i < t.layers.len() implies layer_fits(
        t.config,
        t.cache,
        #[trigger] t.layers[i],
        i,
    ) by {
        assert(layer_fits(s.config, s.cache, s.layers[i], i));
        assert(t.cache.attn[i] is Some == s.cache.attn[i] is Some);
    }
}

/// A point is no longer valid, or as it was: either way it can be used.
proof fn lemma_above_usable(c: ConfigModel, m: HybridModel, p: Option<PointModel>, n: int)
    requires
        point_usable(c, m, p),
    ensures
        point_usable(c, m, invalidated_above(p, n)),
{
}

proof fn lemma_rewound_valid(s: ModelState, slot: RewindSlot)
    requires
        s.valid(),
        valid_prefix(s.points.slot(slot)) is Some,
        rewound_cache(s.cache, s.points.slot(slot)->0.storage).valid(),
    ensures
        rewound_model(s, slot).valid(),
{
    let t = rewound_model(s, slot);
    let p = s.points.slot(slot)->0;
    let n = p.prefix->0.len();
    assert(point_usable(s.config, s.cache, Some(p)));
    assert forall|i: int| 0 <= i < t.cache.attn.len() implies layer_ok(
        t.config,
        #[trigger] t.cache.attn[i],
        t.cache.max_seq,
    ) && same_but_window(s.cache.attn[i], t.cache.attn[i]) by {
        let a = s.cache.attn[i];
        assert(t.cache.attn[i] == rewound_layer(a, p.storage.mixed[i]));
        match (a, p.storage.mixed[i]) {
            (Some(AttnCacheModel::Mixed(x)), Some(w)) => {
                let l = crate::qwen35::cache::mixed::layout_at(x, w.window_base);
                assert(x.with_layout(l) =~= x.with_layout(x.with_layout(l).layout));
            },
            _ => {},
        }
    }
    lemma_point_kept(s.config, s.cache, t.cache, s.points.stable_boundary);
    lemma_point_kept(s.config, s.cache, t.cache, s.points.end_of_turn);
    lemma_above_usable(s.config, t.cache, s.points.stable_boundary, n as int);
    lemma_above_usable(s.config, t.cache, s.points.end_of_turn, n as int);
    assert forall|i: int| 0 <= i < t.layers.len() implies layer_fits(
        t.config,
        t.cache,
        #[trigger] t.layers[i],
        i,
    ) by {
        assert(layer_fits(s.config, s.cache, s.layers[i], i));
        assert(same_but_window(s.cache.attn[i], t.cache.attn[i]));
    }
}

/// Storage that fits a cache still fits it after the cache was saved there,
/// and can then be restored.
proof fn lemma_saved_usable(s: ModelState, base: StorageModel, ids: Seq<u32>)
    requires
        s.valid(),
        s.begun is None,
        layout_matches(s.cache, base),
        ids.len() == s.pos,
    ensures
        point_usable(
            s.config,
            s.cache,
            Some(PointModel { prefix: Some(ids), storage: saved_storage(s.cache, base) }),
        ),
{
    let m = s.cache;
    let st = saved_storage(m, base);
    assert forall|i: int| 0 <= i < m.attn.len() implies is_mixed(#[trigger] m.attn[i]) == (
    st.mixed[i] is Some) && window_restorable(m.attn[i], st.mixed[i]) && rewound_layer(
        m.attn[i],
        st.mixed[i],
    ) == m.attn[i] by {
        assert(is_mixed(m.attn[i]) == (base.mixed[i] is Some));
        assert(cache_valid(m.attn[i]));
        assert(layer_ok(s.config, m.attn[i], m.max_seq));
        match (m.attn[i], st.mixed[i]) {
            (Some(AttnCacheModel::Mixed(p)), Some(w)) => {
                assert(crate::qwen35::cache::mixed::layout_at(p, w.window_base) =~= p.layout);
                assert(p.with_layout(p.layout) =~= p);
            },
            _ => {},
        }
    }
}

proof fn lemma_fresh_matches(m: HybridModel)
    requires
        m.valid(),
    ensures
        layout_matches(m, fresh_storage(m)),
{
}

/// Between passes, the same cache at the same position is settled or not.
proof fn lemma_same_place(s: ModelState, t: ModelState)
    requires
        s.settled(),
        s.begun is None,
        t.begun is None,
        t.config == s.config,
        t.cache == s.cache,
        t.pos == s.pos,
    ensures
        t.settled(),
{
    assert forall|i: int| 0 <= i < t.cache.attn.len() implies layer_at(
        t.config,
        #[trigger] t.cache.attn[i],
        t.cache.max_seq,
        t.layer_pos(i),
    ) by {
        assert(layer_at(s.config, s.cache.attn[i], s.cache.max_seq, s.layer_pos(i)));
    }
}

/// Rewinding to a point that was saved gives back the cache and the position
/// it was saved at, whatever was processed since. What it copies is what
/// saving copied, the other way round; so every linear-attention layer's
/// state and every window holds again what it held, as long as nothing else
/// was written to the rewind point.
pub proof fn law_rewinding_gives_back_the_saved_state(
    saved: ModelState,
    now: ModelState,
    slot: RewindSlot,
    ids: Seq<u32>,
    before: Map<Place, Seq<u32>>,
    later: Map<Place, Seq<u32>>,
)
    requires
        saved.valid(),
        saved.begun is None,
        ids.len() == saved.pos,
        now.valid(),
        now.cache.max_seq == saved.cache.max_seq,
        now.cache.gdn == saved.cache.gdn,
        now.cache.has_mixed_layers == saved.cache.has_mixed_layers,
        now.cache.attn.len() == saved.cache.attn.len(),
        forall|i: int|
            0 <= i < now.cache.attn.len() ==> same_but_window(
                saved.cache.attn[i],
                #[trigger] now.cache.attn[i],
            ),
        now.points.slot(slot) == Some(saved_point(saved, slot, ids)),
        forall|p: Place|
            p.side == Side::Saved ==> #[trigger] later[p] == after_copies(
                before,
                state_copies(saved.cache, Side::Live, Side::Saved),
            )[p],
    ensures
        rewound_model(now, slot).cache == saved.cache,
        rewound_model(now, slot).pos == saved.pos,
        now.config == saved.config && saved.settled() ==> rewound_model(now, slot).settled(),
        state_copies(now.cache, Side::Saved, Side::Live) == exchanged(
            state_copies(saved.cache, Side::Live, Side::Saved),
        ),
        forall|layer: int, window: bool| #[trigger]
            holds_state(saved.cache, layer, window) ==> after_copies(
                later,
                state_copies(now.cache, Side::Saved, Side::Live),
            )[Place { side: Side::Live, layer, window }] == before[Place {
                side: Side::Live,
                layer,
                window,
            }],
{
    lemma_copies_exchanged(saved.cache, now.cache);
    assert forall|layer: int, window: bool| #[trigger]
        holds_state(saved.cache, layer, window) implies after_copies(
        later,
        state_copies(now.cache, Side::Saved, Side::Live),
    )[Place { side: Side::Live, layer, window }] == before[Place {
        side: Side::Live,
        layer,
        window,
    }] by {
        law_saved_state_comes_back(saved.cache, now.cache, before, later, layer, window);
    }
    let base = match saved.points.slot(slot) {
        Some(p) => p.storage,
        None => fresh_storage(saved.cache),
    };
    lemma_fresh_matches(saved.cache);
    assert(point_usable(saved.config, saved.cache, saved.points.slot(slot)));
    assert(layout_matches(saved.cache, base));
    assert forall|i: int| 0 <= i < saved.cache.attn.len() implies ((
    #[trigger] saved.cache.attn[i]) matches Some(AttnCacheModel::Mixed(p))
        ==> p.layout.window_base <= u32::MAX) by {
        assert(layer_ok(saved.config, saved.cache.attn[i], saved.cache.max_seq));
    }
    law_rewind_gives_back_what_was_saved(saved.cache, now.cache, base);
    if now.config == saved.config && saved.settled() {
        lemma_same_place(saved, rewound_model(now, slot));
    }
}

/// Putting back a snapshot that was captured gives back the cache and the
/// position it was captured at, whatever was processed since; it is never
/// refused. What it moves, layer by layer, is what the capture moved.
pub proof fn law_restoring_gives_back_the_captured_state(
    saved: ModelState,
    now: ModelState,
    snap: SnapshotModel,
)
    requires
        saved.valid(),
        saved.begun is None,
        snap.position == saved.pos,
        captured(saved.cache, filled_to(saved.config, saved.pos), snap.gdn, snap.attn),
        now.valid(),
        now.config == saved.config,
        now.cache.max_seq == saved.cache.max_seq,
        now.cache.gdn == saved.cache.gdn,
        now.cache.has_mixed_layers == saved.cache.has_mixed_layers,
        now.cache.attn.len() == saved.cache.attn.len(),
        forall|i: int|
            0 <= i < now.cache.attn.len() ==> same_but_window(
                saved.cache.attn[i],
                #[trigger] now.cache.attn[i],
            ),
    ensures
        snapshot_error(now, snap) is None,
        restored_model(now, snap).cache == saved.cache,
        restored_model(now, snap).pos == saved.pos,
        saved.settled() ==> restored_model(now, snap).settled(),
        forall|t: CacheTransfers| #[trigger]
            cache_transfers(saved.cache, filled_to(saved.config, saved.pos), t)
                == cache_transfers(
                restored_model(now, snap).cache,
                filled_to(now.config, snap.position),
                t,
            ),
{
    law_restoring_gives_back_what_was_captured(
        saved.cache,
        now.cache,
        filled_to(saved.config, saved.pos),
        snap.gdn,
        snap.attn,
    );
    if saved.settled() {
        lemma_same_place(saved, restored_model(now, snap));
    }
}

impl Model {
    /// Starts a fresh sequence, and tells which state to zero. A pass that has
    /// begun is given up.
    pub fn reset(&mut self) -> (r: Vec<GdnZero>)
        requires
            old(self).wf(),
        ensures
            final(self).wf(),
            final(self)@ == reset_model(old(self)@),
            final(self)@.settled(),
            r@ == zeroings(old(self)@.cache),
    {
        let ghost s = self@;
        self.pos = 0;
        self.begun = None;
        self.pending = None;
        self.rewind.invalidate_all();
        let zeroed = self.cache.reset();
        proof {
            lemma_reset_valid(s);
        }
        zeroed
    }

    /// Saves the current state into a slot, under the tokens that led to it,
    /// and tells what to copy into the slot's storage; the slot is to be
    /// forgotten if a copy fails. An error leaves the model as it was.
    pub fn save_rewind_point(&mut self, slot: RewindSlot, token_ids: Vec<u32>) -> (r: Result<
        Vec<StateCopy>,
        ConfigError,
    >)
        requires
            old(self).wf(),
            old(self)@.begun is None,
        ensures
            final(self).wf(),
            match r {
                Err(e) => {
                    &&& token_ids@.len() != old(self)@.pos
                    &&& e == ConfigError::RewindTokens {
                        found: token_ids@.len() as usize,
                        position: old(self)@.pos,
                    }
                    &&& final(self)@ == old(self)@
                },
                Ok(copies) => {
                    &&& token_ids@.len() == old(self)@.pos
                    &&& copies@ == state_copies(old(self)@.cache, Side::Live, Side::Saved)
                    &&& final(self)@ == (ModelState {
                        points: old(self)@.points.with_slot(
                            slot,
                            saved_point(old(self)@, slot, token_ids@),
                        ),
                        ..old(self)@
                    })
                },
            },
    {
        let ghost s = self@;
        let found: usize = token_ids.len();
        if found as u64 != self.pos as u64 {
            return Err(ConfigError::RewindTokens { found, position: self.pos });
        }
        proof {
            assert(point_usable(s.config, s.cache, s.points.slot(slot)));
            lemma_fresh_matches(s.cache);
        }
        let mut storage = match self.rewind.take_slot(slot) {
            Some(p) => p.storage,
            None => self.cache.new_rewind_storage(),
        };
        let ghost base = storage@;
        let copies = match self.cache.save_rewind(&mut storage) {
            Ok(c) => c,
            Err(_) => {
                proof {
                    assert(false);
                }
                Vec::new()
            },
        };
        proof {
            lemma_saved_usable(s, base, token_ids@);
        }
        self.rewind.put_slot(slot, RewindPoint { prefix: Some(token_ids), storage });
        proof {
            assert(self@.points =~= s.points.with_slot(slot, saved_point(s, slot, token_ids@)));
        }
        Ok(copies)
    }

    /// Makes a slot invalid, for a save whose copies failed; its storage
    /// stays allocated.
    pub fn forget_rewind_point(&mut self, slot: RewindSlot)
        requires
            old(self).wf(),
        ensures
            final(self).wf(),
            final(self)@ == (ModelState {
                points: old(self)@.points.without(slot),
                ..old(self)@
            }),
    {
        self.rewind.invalidate(slot);
    }

    /// What rewinding to the longest valid slot takes whose prefix the tokens
    /// go on after; nothing if no slot serves. The model stays as it is: the
    /// copies come first, then [`Self::rewind_to_prefix`].
    pub fn rewind_plan(&self, token_ids: &[u32]) -> (r: Option<RewindPlan>)
        requires
            self.wf(),
        ensures
            is_rewind_plan(self@, token_ids@, r),
    {
        let (slot, n): (RewindSlot, usize) = match self.rewind.matching_slot(token_ids) {
            None => {
                return None;
            },
            Some(x) => x,
        };
        let copies = self.cache.state_copies(Side::Saved, Side::Live);
        Some(RewindPlan { slot, position: n as u32, copies })
    }

    /// Goes back to the longest valid slot whose prefix the tokens go on
    /// after, once what [`Self::rewind_plan`] asks for was copied back, and
    /// gives that plan again; nothing if no slot serves. A pass that has begun
    /// is given up.
    pub fn rewind_to_prefix(&mut self, token_ids: &[u32]) -> (r: Option<RewindPlan>)
        requires
            old(self).wf(),
        ensures
            final(self).wf(),
            is_rewind_plan(old(self)@, token_ids@, r),
            match r {
                None => final(self)@ == old(self)@,
                Some(plan) => {
                    &&& final(self)@ == rewound_model(old(self)@, plan.slot)
                    &&& final(self)@.pos == plan.position
                },
            },
    {
        let ghost s = self@;
        let (slot, n): (RewindSlot, usize) = match self.rewind.matching_slot(token_ids) {
            None => {
                return None;
            },
            Some(x) => x,
        };
        proof {
            assert(point_usable(s.config, s.cache, s.points.slot(slot)));
        }
        let restored = match slot {
            RewindSlot::StableBoundary => match &self.rewind.stable_boundary {
                None => Err(ConfigError::RewindLayout),
                Some(p) => self.cache.restore_rewind(&p.storage),
            },
            RewindSlot::EndOfTurn => match &self.rewind.end_of_turn {
                None => Err(ConfigError::RewindLayout),
                Some(p) => self.cache.restore_rewind(&p.storage),
            },
        };
        let copies = match restored {
            Ok(c) => c,
            Err(_) => {
                proof {
                    assert(false);
                }
                Vec::new()
            },
        };
        proof {
            lemma_rewound_valid(s, slot);
        }
        self.pos = n as u32;
        self.begun = None;
        self.pending = None;
        self.rewind.invalidate_above(n);
        Some(RewindPlan { slot, position: n as u32, copies })
    }

    /// What a snapshot of the current state is made of, under the tokens
    /// that led to it.
    pub fn capture_snapshot(&self, token_ids: Vec<u32>) -> (r: Result<CapturePlan, ConfigError>)
        requires
            self.wf(),
            self@.begun is None,
        ensures
            match r {
                Err(e) => {
                    &&& token_ids@.len() != self@.pos
                    &&& e == ConfigError::SnapshotTokens {
                        found: token_ids@.len() as usize,
                        position: self@.pos,
                    }
                },
                Ok(plan) => {
                    &&& token_ids@.len() == self@.pos
                    &&& plan.position == self@.pos
                    &&& plan.token_ids@ == token_ids@
                    &&& cache_transfers(
                        self@.cache,
                        filled_to(self@.config, self@.pos),
                        plan.transfers,
                    )
                },
            },
    {
        let found: usize = token_ids.len();
        if found as u64 != self.pos as u64 {
            return Err(ConfigError::SnapshotTokens { found, position: self.pos });
        }
        let f = Filled {
            n_kv_heads: self.config.head_count_kv,
            head_dim: self.config.head_dim,
            filled: self.pos,
        };
        let transfers = self.cache.capture_all(f);
        Ok(CapturePlan { position: self.pos, token_ids, transfers })
    }

    /// Bytes a snapshot of the current state takes, token ids aside; none
    /// where they do not fit a machine word.
    pub fn snapshot_byte_size(&self) -> (r: Option<usize>)
        requires
            self.wf(),
        ensures
            ({
                let bytes = cache_bytes(self@.cache, filled_to(self@.config, self@.pos));
                r == (if bytes <= usize::MAX {
                    Some(bytes as usize)
                } else {
                    None
                })
            }),
    {
        self.cache.checked_byte_size(
            Filled {
                n_kv_heads: self.config.head_count_kv,
                head_dim: self.config.head_dim,
                filled: self.pos,
            },
        )
    }

    /// What putting a snapshot back moves into each layer, up to the first
    /// layer at fault. The model stays as it is: the data comes first, then
    /// [`Self::restore_snapshot`].
    pub fn restore_plan(&self, snap: &SnapshotData) -> (r: Result<RestorePlan, RocmlError>)
        requires
            self.wf(),
        ensures
            match r {
                Err(e) => {
                    &&& snap@.position > self@.cache.max_seq
                    &&& snapshot_error(self@, snap@) == Some(e@)
                },
                Ok(p) => {
                    &&& snap@.position <= self@.cache.max_seq
                    &&& is_restore_plan(
                        self@.cache,
                        filled_to(self@.config, snap@.position),
                        snap@.gdn,
                        snap@.attn,
                        p,
                    )
                },
            },
    {
        let max_seq: u32 = self.cache.max_seq();
        if snap.position > max_seq {
            return Err(RocmlError::ContextOverflow { requested: snap.position, max_seq });
        }
        let f = Filled {
            n_kv_heads: self.config.head_count_kv,
            head_dim: self.config.head_dim,
            filled: snap.position,
        };
        Ok(self.cache.check_restore(f, snap.gdn.as_slice(), snap.attn.as_slice()))
    }

    /// Puts a snapshot back, once its data was moved as
    /// [`Self::restore_plan`] asks: takes over its bookkeeping and position,
    /// and gives the moves again. Positions from the start on are
    /// overwritten, so no rewind point stays valid, and a pass that has begun
    /// is given up. With a layer at fault the layers before it are taken over
    /// and the position stays; a snapshot for another number of layers, or
    /// longer than the cache, changes nothing.
    pub fn restore_snapshot(&mut self, snap: &SnapshotData) -> (r: Result<
        CacheTransfers,
        RocmlError,
    >)
        requires
            old(self).wf(),
        ensures
            final(self).wf(),
            match r {
                Err(e) => {
                    &&& snapshot_error(old(self)@, snap@) == Some(e@)
                    &&& final(self)@ == partly_restored(old(self)@, snap@)
                },
                Ok(t) => {
                    &&& snapshot_error(old(self)@, snap@) is None
                    &&& final(self)@ == restored_model(old(self)@, snap@)
                    &&& cache_transfers(
                        final(self)@.cache,
                        filled_to(final(self)@.config, snap@.position),
                        t,
                    )
                },
            },
    {
        let ghost s = self@;
        let max_seq: u32 = self.cache.max_seq();
        if snap.position > max_seq {
            return Err(RocmlError::ContextOverflow { requested: snap.position, max_seq });
        }
        let f = Filled {
            n_kv_heads: self.config.head_count_kv,
            head_dim: self.config.head_dim,
            filled: snap.position,
        };
        let ghost n = put_back(s.cache, f, snap@.gdn, snap@.attn).1;
        let counts_match: bool = snap.gdn.len() == self.cache.len() && snap.attn.len()
            == self.cache.len();
        let plan = self.cache.restore_all(f, snap.gdn.as_slice(), snap.attn.as_slice());
        if !counts_match {
            proof {
                assert(restored_to(s.cache, snap@.attn, 0) =~= s.cache);
            }
            return match plan.error {
                Some(e) => Err(RocmlError::Config(e)),
                None => Ok(plan.transfers),
            };
        }
        self.begun = None;
        self.pending = None;
        self.rewind.invalidate_all();
        match plan.error {
            Some(e) => {
                proof {
                    lemma_restored_valid(s, snap@, n, s.pos);
                }
                Err(RocmlError::Config(e))
            },
            None => {
                self.pos = snap.position;
                proof {
                    lemma_whole_snapshot_put_back(s.cache, f, snap@.gdn, snap@.attn);
                    lemma_restored_valid(s, snap@, n, snap.position);
                }
                Ok(plan.transfers)
            },
        }
    }
}

} // verus!
