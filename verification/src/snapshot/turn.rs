//! One conversation turn: which prefix is reused and from where, what is
//! saved at each prefill boundary and at the end of the turn, and when
//! generated text meets a stop string.

use super::SnapshotTier;
use crate::text::{contains, occurs};
use vstd::prelude::*;
use vstd::slice::{slice_subrange, slice_to_vec};

verus! {

/// Which tier a turn's prefix reuse came from.
#[derive(Debug, Clone, Copy, PartialEq, Eq, Structural)]
pub enum HitSource {
    Gpu,
    Ram,
    Disk,
}

impl HitSource {
    /// The tier's name.
    pub fn as_str(self) -> (r: &'static str)
        ensures
            r@ == (match self {
                HitSource::Gpu => "gpu"@,
                HitSource::Ram => "ram"@,
                HitSource::Disk => "disk"@,
            }),
    {
        match self {
            HitSource::Gpu => "gpu",
            HitSource::Ram => "ram",
            HitSource::Disk => "disk",
        }
    }
}

/// How a turn starts.
#[derive(Debug, Clone, Copy, PartialEq, Eq, Structural)]
pub enum TurnStart {
    /// Ask the device's rewind points first.
    TryRewind,
    /// Reset the model; nothing is reused.
    Reset,
}

/// What follows once the rewind points have answered.
#[derive(Debug, Clone, Copy, PartialEq, Eq, Structural)]
pub enum AfterRewind {
    /// The device state was rewound: prefill the rest of the prompt.
    Prefill,
    /// No rewind point matched: reset the model and look in the store.
    ResetAndLookup,
}

/// What is captured into the snapshot store.
#[derive(Debug, Clone, Copy, PartialEq, Eq, Structural)]
pub enum Capture {
    Nothing,
    /// An ordinary entry.
    Plain,
    /// The pinned entry, the one the next turn is expected to hit.
    Pinned,
}

/// What to save at a prefill boundary.
#[derive(Debug, Clone, Copy, PartialEq, Eq, Structural)]
pub struct BoundarySave {
    /// Save the device's stable-boundary rewind point.
    pub rewind_point: bool,
    pub capture: Capture,
}

/// What to save at the end of a turn.
#[derive(Debug)]
pub struct EndSave {
    /// The tokens the device state covers; also the end-of-turn rewind point.
    pub tokens: Vec<u32>,
    pub capture: Capture,
}

/// The decisions of one turn.
#[derive(Debug, Clone, Copy, PartialEq, Eq, Structural)]
pub struct Turn {
    snapshots_on: bool,
    stable_boundary: Option<u32>,
    reused_prefix: u32,
    hit_source: Option<HitSource>,
}

/// What a [`Turn`] knows.
pub struct TurnModel {
    /// The model is a hybrid one and there is a store.
    pub snapshots_on: bool,
    pub stable_boundary: Option<u32>,
    pub reused_prefix: u32,
    pub hit_source: Option<HitSource>,
}

impl View for Turn {
    type V = TurnModel;

    closed spec fn view(&self) -> TurnModel {
        TurnModel {
            snapshots_on: self.snapshots_on,
            stable_boundary: self.stable_boundary,
            reused_prefix: self.reused_prefix,
            hit_source: self.hit_source,
        }
    }
}

/// A turn as it begins.
pub open spec fn turn_begun(is_hybrid: bool, has_store: bool, stable_boundary: Option<u32>) -> TurnModel {
    TurnModel {
        snapshots_on: is_hybrid && has_store,
        stable_boundary,
        reused_prefix: 0,
        hit_source: None,
    }
}

/// A turn after the rewind points' answer.
pub open spec fn turn_rewound(m: TurnModel, position: Option<u32>) -> TurnModel {
    match position {
        Some(p) => TurnModel { reused_prefix: p, hit_source: Some(HitSource::Gpu), ..m },
        None => m,
    }
}

/// A turn after the store's answer.
pub open spec fn turn_restored(m: TurnModel, hit: Option<(u32, SnapshotTier)>) -> TurnModel {
    match hit {
        None => m,
        Some((p, tier)) => TurnModel {
            reused_prefix: p,
            hit_source: Some(
                match tier {
                    SnapshotTier::Ram => HitSource::Ram,
                    SnapshotTier::Disk => HitSource::Disk,
                },
            ),
            ..m
        },
    }
}

/// Whether the rewind point is saved once `processed` tokens are in the cache.
pub open spec fn saves_point(m: TurnModel, processed: usize) -> bool {
    m.snapshots_on && m.stable_boundary is Some && m.stable_boundary->0 == processed
}

/// What is captured once `processed` tokens of the prompt are in the cache.
pub open spec fn boundary_capture(
    m: TurnModel,
    processed: usize,
    prompt_len: usize,
    would_keep: bool,
    would_keep_pinned: bool,
) -> Capture {
    if saves_point(m, processed) {
        if would_keep_pinned {
            Capture::Pinned
        } else {
            Capture::Nothing
        }
    } else if m.snapshots_on && processed < prompt_len && would_keep {
        Capture::Plain
    } else {
        Capture::Nothing
    }
}

/// The tokens that a turn ends with, as far as the cache holds them.
pub open spec fn end_tokens(prompt: Seq<u32>, generated: Seq<u32>, position: u32) -> Seq<u32> {
    (prompt + generated).take(
        if position < prompt.len() + generated.len() {
            position as int
        } else {
            (prompt.len() + generated.len()) as int
        },
    )
}

/// What is captured at the end of a turn.
pub open spec fn end_capture(m: TurnModel, would_keep_pinned: bool) -> Capture {
    if m.stable_boundary is None && would_keep_pinned {
        Capture::Pinned
    } else {
        Capture::Nothing
    }
}

/// A turn reuses what answered first: the device's rewind points before the
/// store, and nothing when neither answered. The answers change neither
/// whether snapshots are on nor the stable boundary.
pub proof fn law_turn_reuses_the_first_answer(
    has_store: bool,
    stable_boundary: Option<u32>,
    rewound: Option<u32>,
    hit: Option<(u32, SnapshotTier)>,
)
    ensures
        ({
            let begun = turn_begun(true, has_store, stable_boundary);
            let asked = turn_rewound(begun, rewound);
            let m = if rewound is Some {
                asked
            } else {
                turn_restored(asked, hit)
            };
            &&& m.snapshots_on == has_store
            &&& m.stable_boundary == stable_boundary
            &&& rewound matches Some(p) ==> m.reused_prefix == p && m.hit_source == Some(
                HitSource::Gpu,
            )
            &&& rewound is None && hit is Some ==> m.reused_prefix == (hit->0).0 && (m.hit_source
                == Some(HitSource::Ram) <==> (hit->0).1 == SnapshotTier::Ram) && (m.hit_source
                == Some(HitSource::Disk) <==> (hit->0).1 == SnapshotTier::Disk)
            &&& rewound is None && hit is None ==> m.reused_prefix == 0 && m.hit_source is None
        }),
{
}

/// A turn pins one snapshot at most: at the stable boundary when there is
/// one, at its end when there is none. So the store holds the one snapshot
/// that the next turn is expected to hit.
pub proof fn law_turn_pins_one_snapshot(
    m: TurnModel,
    processed: usize,
    other: usize,
    prompt_len: usize,
    would_keep: bool,
    would_keep_pinned: bool,
)
    requires
        m.snapshots_on,
    ensures
        ({
            let a = boundary_capture(m, processed, prompt_len, would_keep, would_keep_pinned);
            let b = boundary_capture(m, other, prompt_len, would_keep, would_keep_pinned);
            let end = end_capture(m, would_keep_pinned);
            &&& a == Capture::Pinned ==> saves_point(m, processed) && end != Capture::Pinned
            &&& a == Capture::Pinned && b == Capture::Pinned ==> processed == other
            &&& would_keep_pinned && saves_point(m, processed) ==> a == Capture::Pinned
            &&& would_keep_pinned ==> (end == Capture::Pinned <==> m.stable_boundary is None)
            &&& !would_keep_pinned ==> a != Capture::Pinned && end != Capture::Pinned
            &&& end != Capture::Plain
            &&& a == Capture::Plain <==> !saves_point(m, processed) && processed < prompt_len
                && would_keep
            &&& m.stable_boundary matches Some(x) ==> (saves_point(m, processed) <==> processed
                == x)
            &&& m.stable_boundary is None ==> !saves_point(m, processed)
        }),
{
}

/// Without a store, or for a model that is not a hybrid one, a turn saves
/// nothing before its end.
pub proof fn law_turn_without_snapshots_saves_nothing(
    is_hybrid: bool,
    has_store: bool,
    stable_boundary: Option<u32>,
    processed: usize,
    prompt_len: usize,
    would_keep: bool,
    would_keep_pinned: bool,
)
    requires
        !is_hybrid || !has_store,
    ensures
        ({
            let m = turn_begun(is_hybrid, has_store, stable_boundary);
            &&& !saves_point(m, processed)
            &&& boundary_capture(m, processed, prompt_len, would_keep, would_keep_pinned)
                == Capture::Nothing
        }),
{
}

/// What is saved at the end of a turn is what the cache holds: as many tokens
/// as its position, of the prompt first and then of what was generated.
pub proof fn law_turn_end_saves_what_the_cache_holds(
    prompt: Seq<u32>,
    generated: Seq<u32>,
    position: u32,
)
    requires
        position <= prompt.len() + generated.len(),
    ensures
        end_tokens(prompt, generated, position).len() == position,
        forall|i: int|
            0 <= i < position ==> #[trigger] end_tokens(prompt, generated, position)[i] == (if i
                < prompt.len() {
                prompt[i]
            } else {
                generated[i - prompt.len()]
            }),
{
}

impl Turn {
    /// Begins a turn. Snapshots apply only to a hybrid model with a store.
    pub fn begin(is_hybrid: bool, has_store: bool, stable_boundary: Option<u32>) -> (r: (
        Turn,
        TurnStart,
    ))
        ensures
            r.0@ == turn_begun(is_hybrid, has_store, stable_boundary),
            r.1 == (if is_hybrid && has_store {
                TurnStart::TryRewind
            } else {
                TurnStart::Reset
            }),
    {
        let snapshots_on: bool = is_hybrid && has_store;
        let turn = Turn { snapshots_on, stable_boundary, reused_prefix: 0, hit_source: None };
        if snapshots_on {
            (turn, TurnStart::TryRewind)
        } else {
            (turn, TurnStart::Reset)
        }
    }

    /// Takes the rewind points' answer: the position reached, or none.
    pub fn rewound(&mut self, position: Option<u32>) -> (r: AfterRewind)
        ensures
            final(self)@ == turn_rewound(old(self)@, position),
            r == (if position is Some {
                AfterRewind::Prefill
            } else {
                AfterRewind::ResetAndLookup
            }),
    {
        match position {
            Some(p) => {
                self.reused_prefix = p;
                self.hit_source = Some(HitSource::Gpu);
                AfterRewind::Prefill
            },
            None => AfterRewind::ResetAndLookup,
        }
    }

    /// Takes the store's answer: the position of the restored snapshot and
    /// the tier it came from, or none.
    pub fn restored(&mut self, hit: Option<(u32, SnapshotTier)>)
        ensures
            final(self)@ == turn_restored(old(self)@, hit),
    {
        match hit {
            None => {},
            Some((p, tier)) => {
                self.reused_prefix = p;
                self.hit_source = Some(
                    match tier {
                        SnapshotTier::Ram => HitSource::Ram,
                        SnapshotTier::Disk => HitSource::Disk,
                    },
                );
            },
        }
    }

    /// Tokens of the prompt that need no prefill.
    pub fn reused_prefix(&self) -> (r: u32)
        ensures
            r == self@.reused_prefix,
    {
        self.reused_prefix
    }

    /// Where they came from; none on a miss.
    pub fn hit_source(&self) -> (r: Option<HitSource>)
        ensures
            r == self@.hit_source,
    {
        self.hit_source
    }

    /// What to save once `processed` tokens of the prompt are in the cache.
    /// At the stable boundary: the rewind point, and the pinned entry when
    /// the store would keep it. Elsewhere before the prompt's end: an
    /// ordinary entry when the store would keep it beside the pinned one.
    pub fn at_boundary(
        &self,
        processed: usize,
        prompt_len: usize,
        would_keep: bool,
        would_keep_pinned: bool,
    ) -> (r: BoundarySave)
        ensures
            r.rewind_point == saves_point(self@, processed),
            r.capture == boundary_capture(
                self@,
                processed,
                prompt_len,
                would_keep,
                would_keep_pinned,
            ),
    {
        if !self.snapshots_on {
            return BoundarySave { rewind_point: false, capture: Capture::Nothing };
        }
        let stable: bool = match self.stable_boundary {
            Some(b) => b as usize == processed,
            None => false,
        };
        if stable {
            let capture = if would_keep_pinned {
                Capture::Pinned
            } else {
                Capture::Nothing
            };
            BoundarySave { rewind_point: true, capture }
        } else if processed < prompt_len && would_keep {
            BoundarySave { rewind_point: false, capture: Capture::Plain }
        } else {
            BoundarySave { rewind_point: false, capture: Capture::Nothing }
        }
    }

    /// What to save at the end of the turn: the prompt and the generated
    /// tokens, as far as the cache holds them (a stop string ends a turn one
    /// token before the cache has it). The pinned entry is replaced only when
    /// the caller gave no stable boundary.
    pub fn at_end(
        &self,
        prompt_ids: &[u32],
        generated_ids: &[u32],
        position: u32,
        would_keep_pinned: bool,
    ) -> (r: Option<EndSave>)
        ensures
            r is Some <==> self@.snapshots_on,
            r matches Some(s) ==> {
                &&& s.tokens@ == end_tokens(prompt_ids@, generated_ids@, position)
                &&& s.capture == end_capture(self@, would_keep_pinned)
            },
    {
        if !self.snapshots_on {
            return None;
        }
        let mut tokens: Vec<u32> = slice_to_vec(prompt_ids);
        tokens.extend_from_slice(generated_ids);
        assert(tokens@ =~= prompt_ids@ + generated_ids@);
        tokens.truncate(position as usize);
        assert(tokens@ =~= (prompt_ids@ + generated_ids@).take(tokens@.len() as int));
        let capture = if self.stable_boundary.is_none() && would_keep_pinned {
            Capture::Pinned
        } else {
            Capture::Nothing
        };
        Some(EndSave { tokens, capture })
    }
}

/// The token index of a render-stable cut: the number of tokens of the
/// rendered prefix, if those tokens really are a prefix of the prompt's.
pub fn stable_boundary_tokens(prefix_ids: &[u32], prompt_ids: &[u32]) -> (r: Option<u32>)
    ensures
        r == (if prefix_ids@.is_prefix_of(prompt_ids@) {
            Some(prefix_ids@.len() as u32)
        } else {
            None
        }),
{
    if prefix_ids.len() > prompt_ids.len() {
        return None;
    }
    let head = slice_subrange(prompt_ids, 0, prefix_ids.len());
    if crate::bytes::same_tokens(prefix_ids, head) {
        Some(prefix_ids.len() as u32)
    } else {
        None
    }
}

/// Whether any non-empty stop string occurs in the text decoded so far.
pub fn stop_matched(decoded_so_far: &str, stop_strings: &[String]) -> (r: bool)
    ensures
        r == exists|i: int|
            0 <= i < stop_strings@.len() && (#[trigger] stop_strings@[i])@.len() > 0 && occurs(
                decoded_so_far@,
                stop_strings@[i]@,
            ),
{
    let mut i: usize = 0;
    while i < stop_strings.len()
        invariant
            i <= stop_strings@.len(),
            forall|j: int|
                0 <= j < i ==> !((#[trigger] stop_strings@[j])@.len() > 0 && occurs(
                    decoded_so_far@,
                    stop_strings@[j]@,
                )),
        decreases stop_strings@.len() - i,
    {
        let s = stop_strings[i].as_str();
        if !s.is_empty() && contains(decoded_so_far, s) {
            assert(stop_strings@[i as int]@.len() > 0);
            return true;
        }
        i = i + 1;
    }
    false
}

} // verus!
