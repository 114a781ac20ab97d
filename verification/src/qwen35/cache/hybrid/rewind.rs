//! Rewind points kept on the device. A rewind point saves only what a later
//! position can overwrite: every linear-attention layer's state and every
//! mixed layer's recent window. Dense planes and the bulk regions below the
//! point are never touched by what comes after it.

use super::state::{state_copies, Side, StateCopy};
use super::{
    cache_valid, cache_view, is_mixed, AttnCacheModel, AttnLayerCache, HybridCache, HybridModel,
};
use crate::error::ConfigError;
use crate::qwen35::cache::mixed::{layout_at, window_may_start, MixedWindowRewind};
use crate::qwen35::cache::plane::GdnLayerState;
use vstd::prelude::*;

verus! {

/// One rewind point's storage, layer by layer.
#[derive(Debug)]
pub struct RewindStorage {
    pub gdn: Vec<Option<GdnLayerState>>,
    pub mixed: Vec<Option<MixedWindowRewind>>,
}

/// What a [`RewindStorage`] holds.
#[verifier::ext_equal]
pub struct StorageModel {
    pub gdn: Seq<Option<GdnLayerState>>,
    pub mixed: Seq<Option<MixedWindowRewind>>,
}

impl View for RewindStorage {
    type V = StorageModel;

    open spec fn view(&self) -> StorageModel {
        StorageModel { gdn: self.gdn@, mixed: self.mixed@ }
    }
}

/// Whether storage has a place for exactly the layers that need one.
pub open spec fn layout_matches(m: HybridModel, s: StorageModel) -> bool {
    &&& s.gdn.len() == m.gdn.len()
    &&& s.mixed.len() == m.attn.len()
    &&& forall|i: int| 0 <= i < m.gdn.len() ==> (#[trigger] m.gdn[i] is Some) == (s.gdn[i] is Some)
    &&& forall|i: int|
        0 <= i < m.attn.len() ==> is_mixed(#[trigger] m.attn[i]) == (s.mixed[i] is Some)
}

/// A layer's window can be put back where it was saved.
pub open spec fn window_restorable(c: Option<AttnCacheModel>, w: Option<MixedWindowRewind>) -> bool {
    match (c, w) {
        (Some(AttnCacheModel::Mixed(p)), Some(w)) => window_may_start(p, w.window_base),
        _ => true,
    }
}

/// Whether every window can be put back where it was saved.
pub open spec fn restorable(m: HybridModel, s: StorageModel) -> bool {
    forall|i: int| 0 <= i < m.attn.len() ==> window_restorable(#[trigger] m.attn[i], s.mixed[i])
}

/// Storage for a layer's window.
pub open spec fn fresh_window(c: Option<AttnCacheModel>) -> Option<MixedWindowRewind> {
    match c {
        Some(AttnCacheModel::Mixed(p)) => Some(
            MixedWindowRewind {
                window_elems: p.lens(0).window,
                window_base: p.layout.window_base as u32,
            },
        ),
        _ => None,
    }
}

/// Storage for one rewind point of a cache.
pub open spec fn fresh_storage(m: HybridModel) -> StorageModel {
    StorageModel {
        gdn: m.gdn,
        mixed: Seq::new(m.attn.len(), |i: int| fresh_window(m.attn[i])),
    }
}

/// What saving a layer's window records over what was recorded before.
pub open spec fn saved_window(c: Option<AttnCacheModel>, w: Option<MixedWindowRewind>) -> Option<
    MixedWindowRewind,
> {
    match (c, w) {
        (Some(AttnCacheModel::Mixed(p)), Some(w)) => Some(
            MixedWindowRewind { window_base: p.layout.window_base as u32, ..w },
        ),
        _ => w,
    }
}

/// Storage after the cache was saved into it.
pub open spec fn saved_storage(m: HybridModel, s: StorageModel) -> StorageModel {
    StorageModel {
        mixed: Seq::new(s.mixed.len(), |i: int| saved_window(m.attn[i], s.mixed[i])),
        ..s
    }
}

/// A layer's cache after its window was put back.
pub open spec fn rewound_layer(c: Option<AttnCacheModel>, w: Option<MixedWindowRewind>) -> Option<
    AttnCacheModel,
> {
    match (c, w) {
        (Some(AttnCacheModel::Mixed(p)), Some(w)) => Some(
            AttnCacheModel::Mixed(p.with_layout(layout_at(p, w.window_base))),
        ),
        _ => c,
    }
}

/// The cache after a rewind point was restored.
pub open spec fn rewound_cache(m: HybridModel, s: StorageModel) -> HybridModel {
    HybridModel {
        attn: Seq::new(m.attn.len(), |i: int| rewound_layer(m.attn[i], s.mixed[i])),
        ..m
    }
}

/// Whether two layers differ at most in where their windows are.
pub open spec fn same_but_window(a: Option<AttnCacheModel>, b: Option<AttnCacheModel>) -> bool {
    match (a, b) {
        (Some(AttnCacheModel::Mixed(p)), Some(AttnCacheModel::Mixed(q))) => {
            &&& q == p.with_layout(q.layout)
            &&& q.layout.sink_len == p.layout.sink_len
            &&& q.layout.window_len == p.layout.window_len
        },
        _ => a == b,
    }
}

/// A layer differs from itself in nothing.
pub proof fn lemma_same_as_itself(a: Option<AttnCacheModel>)
    ensures
        same_but_window(a, a),
{
    match a {
        Some(AttnCacheModel::Mixed(p)) => {
            assert(p =~= p.with_layout(p.layout));
        },
        _ => {},
    }
}

/// Which of two layers is named first does not matter.
pub proof fn lemma_same_either_way(a: Option<AttnCacheModel>, b: Option<AttnCacheModel>)
    requires
        same_but_window(a, b),
    ensures
        same_but_window(b, a),
{
    match (a, b) {
        (Some(AttnCacheModel::Mixed(p)), Some(AttnCacheModel::Mixed(q))) => {
            assert(p =~= q.with_layout(p.layout));
        },
        _ => {},
    }
}

/// Windows that moved twice have moved.
pub proof fn lemma_same_through(
    a: Option<AttnCacheModel>,
    b: Option<AttnCacheModel>,
    c: Option<AttnCacheModel>,
)
    requires
        same_but_window(a, b),
        same_but_window(b, c),
    ensures
        same_but_window(a, c),
{
    match (a, b, c) {
        (
            Some(AttnCacheModel::Mixed(p)),
            Some(AttnCacheModel::Mixed(_)),
            Some(AttnCacheModel::Mixed(r)),
        ) => {
            assert(r =~= p.with_layout(r.layout));
        },
        _ => {},
    }
}

/// Restoring a rewind point gives back the bookkeeping that was saved,
/// whatever was appended in between.
pub proof fn law_rewind_gives_back_what_was_saved(
    saved: HybridModel,
    now: HybridModel,
    s: StorageModel,
)
    requires
        saved.valid(),
        now.valid(),
        layout_matches(saved, s),
        now.max_seq == saved.max_seq,
        now.gdn == saved.gdn,
        now.has_mixed_layers == saved.has_mixed_layers,
        now.attn.len() == saved.attn.len(),
        forall|i: int|
            0 <= i < now.attn.len() ==> same_but_window(saved.attn[i], #[trigger] now.attn[i]),
        forall|i: int|
            0 <= i < saved.attn.len() ==> ((#[trigger] saved.attn[i]) matches Some(
                AttnCacheModel::Mixed(p),
            ) ==> p.layout.window_base <= u32::MAX),
    ensures
        restorable(now, saved_storage(saved, s)),
        rewound_cache(now, saved_storage(saved, s)) == saved,
{
    let t = saved_storage(saved, s);
    assert forall|i: int| 0 <= i < now.attn.len() implies window_restorable(
        #[trigger] now.attn[i],
        t.mixed[i],
    ) && rewound_layer(now.attn[i], t.mixed[i]) == saved.attn[i] by {
        assert(same_but_window(saved.attn[i], now.attn[i]));
        assert(cache_valid(saved.attn[i]));
        assert(is_mixed(saved.attn[i]) == (s.mixed[i] is Some));
        match (saved.attn[i], now.attn[i]) {
            (Some(AttnCacheModel::Mixed(p)), Some(AttnCacheModel::Mixed(q))) => {
                let w = t.mixed[i]->0;
                assert(layout_at(q, w.window_base) =~= p.layout);
                assert(q.with_layout(p.layout) =~= p);
            },
            _ => {},
        }
    }
    assert(rewound_cache(now, t).attn =~= saved.attn);
}

/// Whether storage has a place for exactly the layers that need one.
fn check_layout(cache: &HybridCache, storage: &RewindStorage) -> (r: bool)
    requires
        cache.wf(),
    ensures
        r == layout_matches(cache@, storage@),
{
    let ghost m = cache@;
    let ghost s = storage@;
    if cache.gdn.len() != storage.gdn.len() || cache.attn.len() != storage.mixed.len() {
        return false;
    }
    let mut i: usize = 0;
    while i < cache.gdn.len()
        invariant
            m == cache@,
            s == storage@,
            s.gdn.len() == m.gdn.len(),
            i <= m.gdn.len(),
            forall|j: int| 0 <= j < i ==> (#[trigger] m.gdn[j] is Some) == (s.gdn[j] is Some),
        decreases cache.gdn@.len() - i,
    {
        if cache.gdn[i].is_some() != storage.gdn[i].is_some() {
            proof {
                assert((m.gdn[i as int] is Some) != (s.gdn[i as int] is Some));
            }
            return false;
        }
        i = i + 1;
    }
    let mut k: usize = 0;
    while k < cache.attn.len()
        invariant
            m == cache@,
            s == storage@,
            s.gdn.len() == m.gdn.len(),
            s.mixed.len() == m.attn.len(),
            k <= m.attn.len(),
            forall|j: int|
                0 <= j < m.gdn.len() ==> (#[trigger] m.gdn[j] is Some) == (s.gdn[j] is Some),
            forall|j: int| 0 <= j < k ==> is_mixed(#[trigger] m.attn[j]) == (s.mixed[j] is Some),
        decreases cache.attn@.len() - k,
    {
        proof {
            assert(m.attn[k as int] == cache_view(cache.attn@[k as int]));
        }
        let mixed: bool = match cache.attn[k] {
            Some(AttnLayerCache::Mixed(_)) => true,
            _ => false,
        };
        if mixed != storage.mixed[k].is_some() {
            return false;
        }
        k = k + 1;
    }
    true
}

impl HybridCache {
    /// Storage for one rewind point of this cache.
    pub fn new_rewind_storage(&self) -> (r: RewindStorage)
        requires
            self.wf(),
        ensures
            r@ == fresh_storage(self@),
    {
        let mut gdn: Vec<Option<GdnLayerState>> = Vec::new();
        let mut i: usize = 0;
        while i < self.gdn.len()
            invariant
                i <= self.gdn@.len(),
                gdn@ == self.gdn@.take(i as int),
            decreases self.gdn@.len() - i,
        {
            gdn.push(self.gdn[i]);
            i = i + 1;
            proof {
                assert(gdn@ =~= self.gdn@.take(i as int));
            }
        }
        proof {
            assert(self.gdn@.take(i as int) =~= self.gdn@);
        }
        let mut mixed: Vec<Option<MixedWindowRewind>> = Vec::new();
        let mut k: usize = 0;
        while k < self.attn.len()
            invariant
                self.wf(),
                k <= self.attn@.len(),
                mixed@.len() == k,
                forall|j: int| 0 <= j < k ==> #[trigger] mixed@[j] == fresh_window(self@.attn[j]),
            decreases self.attn@.len() - k,
        {
            proof {
                assert(self@.attn[k as int] == cache_view(self.attn@[k as int]));
                assert(cache_valid(self@.attn[k as int]));
            }
            match &self.attn[k] {
                Some(AttnLayerCache::Mixed(p)) => mixed.push(Some(p.new_window_rewind())),
                _ => mixed.push(None),
            }
            k = k + 1;
        }
        let r = RewindStorage { gdn, mixed };
        proof {
            assert(r@.mixed =~= fresh_storage(self@).mixed);
        }
        r
    }

    /// Records where every window is, and tells what to copy into the rewind
    /// point: every linear-attention layer's state, and every window.
    pub fn save_rewind(&self, dst: &mut RewindStorage) -> (r: Result<Vec<StateCopy>, ConfigError>)
        requires
            self.wf(),
        ensures
            match r {
                Err(e) => {
                    &&& e == ConfigError::RewindLayout
                    &&& !layout_matches(self@, old(dst)@)
                    &&& final(dst)@ == old(dst)@
                },
                Ok(copies) => {
                    &&& layout_matches(self@, old(dst)@)
                    &&& final(dst)@ == saved_storage(self@, old(dst)@)
                    &&& copies@ == state_copies(self@, Side::Live, Side::Saved)
                },
            },
    {
        if !check_layout(self, dst) {
            return Err(ConfigError::RewindLayout);
        }
        let ghost s = dst@;
        let mut i: usize = 0;
        while i < self.attn.len()
            invariant
                self.wf(),
                layout_matches(self@, s),
                i <= self.attn@.len(),
                dst.gdn@ == s.gdn,
                dst.mixed@.len() == s.mixed.len(),
                forall|j: int| i <= j < s.mixed.len() ==> dst.mixed@[j] == s.mixed[j],
                forall|j: int|
                    0 <= j < i ==> #[trigger] dst.mixed@[j] == saved_window(
                        self@.attn[j],
                        s.mixed[j],
                    ),
            decreases self.attn@.len() - i,
        {
            proof {
                assert(self@.attn[i as int] == cache_view(self.attn@[i as int]));
                assert(cache_valid(self@.attn[i as int]));
            }
            match (&self.attn[i], dst.mixed[i]) {
                (Some(AttnLayerCache::Mixed(p)), Some(w)) => {
                    let mut w = w;
                    p.save_window(&mut w);
                    dst.mixed.set(i, Some(w));
                },
                _ => {},
            }
            i = i + 1;
        }
        proof {
            assert(dst.mixed@ =~= saved_storage(self@, s).mixed);
        }
        Ok(self.state_copies(Side::Live, Side::Saved))
    }

    /// Puts every window back where it was recorded, and tells what to copy
    /// back out of the rewind point. An error leaves the cache as it was.
    pub fn restore_rewind(&mut self, src: &RewindStorage) -> (r: Result<
        Vec<StateCopy>,
        ConfigError,
    >)
        requires
            old(self).wf(),
        ensures
            final(self).wf(),
            match r {
                Err(e) => {
                    &&& e == ConfigError::RewindLayout
                    &&& !(layout_matches(old(self)@, src@) && restorable(old(self)@, src@))
                    &&& final(self)@ == old(self)@
                },
                Ok(copies) => {
                    &&& layout_matches(old(self)@, src@) && restorable(old(self)@, src@)
                    &&& final(self)@ == rewound_cache(old(self)@, src@)
                    &&& copies@ == state_copies(old(self)@, Side::Saved, Side::Live)
                },
            },
    {
        if !check_layout(self, src) {
            return Err(ConfigError::RewindLayout);
        }
        let ghost m = self@;
        let ghost s = src@;
        let copies = self.state_copies(Side::Saved, Side::Live);
        let mut planes: Vec<Option<AttnLayerCache>> = Vec::new();
        let mut i: usize = 0;
        while i < self.attn.len()
            invariant
                m == self@,
                m == old(self)@,
                s == src@,
                self.wf(),
                layout_matches(m, s),
                i <= self.attn@.len(),
                planes@.len() == i,
                forall|j: int|
                    0 <= j < i ==> window_restorable(#[trigger] m.attn[j], s.mixed[j]),
                forall|j: int|
                    0 <= j < i ==> cache_view(#[trigger] planes@[j]) == rewound_layer(
                        m.attn[j],
                        s.mixed[j],
                    ) && cache_valid(cache_view(planes@[j])),
            decreases self.attn@.len() - i,
        {
            proof {
                assert(m.attn[i as int] == cache_view(self.attn@[i as int]));
                assert(cache_valid(m.attn[i as int]));
            }
            match (self.attn[i], src.mixed[i]) {
                (Some(AttnLayerCache::Mixed(p)), Some(w)) => {
                    let mut p = p;
                    if !p.may_start(w.window_base) {
                        proof {
                            assert(!window_restorable(m.attn[i as int], s.mixed[i as int]));
                        }
                        return Err(ConfigError::RewindLayout);
                    }
                    p.restore_window(&w);
                    planes.push(Some(AttnLayerCache::Mixed(p)));
                },
                (c, _) => planes.push(c),
            }
            i = i + 1;
        }
        self.attn = planes;
        proof {
            let after = rewound_cache(m, s);
            assert forall|k: int| 0 <= k < after.attn.len() implies self@.attn[k] == after.attn[k]
                && cache_valid(self@.attn[k]) by {
                assert(cache_view(planes@[k]) == rewound_layer(m.attn[k], s.mixed[k]));
            }
            assert(self@.attn =~= after.attn);
        }
        Ok(copies)
    }
}

} // verus!
