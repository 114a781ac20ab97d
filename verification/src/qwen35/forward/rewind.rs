//! Named rewind points. A growing conversation's next prompt shares a prefix
//! with what is already on the device; two slots cover the two prefixes it
//! can share.

use crate::qwen35::cache::hybrid::rewind::{RewindStorage, StorageModel};
use vstd::prelude::*;

verus! {

/// Which prefix a rewind point keeps.
#[derive(Debug, Clone, Copy, PartialEq, Eq, Structural)]
pub enum RewindSlot {
    /// Right after the last history message.
    StableBoundary,
    /// The prompt and everything generated.
    EndOfTurn,
}

/// One rewind point. Without a prefix it is allocated, but not valid.
#[derive(Debug)]
pub struct RewindPoint {
    pub prefix: Option<Vec<u32>>,
    pub storage: RewindStorage,
}

/// What a [`RewindPoint`] holds.
#[verifier::ext_equal]
pub struct PointModel {
    pub prefix: Option<Seq<u32>>,
    pub storage: StorageModel,
}

impl View for RewindPoint {
    type V = PointModel;

    open spec fn view(&self) -> PointModel {
        PointModel {
            prefix: match self.prefix {
                None => None,
                Some(p) => Some(p@),
            },
            storage: self.storage@,
        }
    }
}

/// The content of an optional rewind point.
pub open spec fn point_view(p: Option<RewindPoint>) -> Option<PointModel> {
    match p {
        None => None,
        Some(p) => Some(p@),
    }
}

/// The rewind points of a model. Slots are allocated when first saved.
#[derive(Debug)]
pub struct RewindPoints {
    pub stable_boundary: Option<RewindPoint>,
    pub end_of_turn: Option<RewindPoint>,
}

/// What [`RewindPoints`] hold.
#[verifier::ext_equal]
pub struct PointsModel {
    pub stable_boundary: Option<PointModel>,
    pub end_of_turn: Option<PointModel>,
}

impl View for RewindPoints {
    type V = PointsModel;

    open spec fn view(&self) -> PointsModel {
        PointsModel {
            stable_boundary: point_view(self.stable_boundary),
            end_of_turn: point_view(self.end_of_turn),
        }
    }
}

/// A point's prefix, if it is valid.
pub open spec fn valid_prefix(p: Option<PointModel>) -> Option<Seq<u32>> {
    match p {
        None => None,
        Some(p) => p.prefix,
    }
}

/// A slot can serve a prompt: its prefix is valid, and the prompt goes on
/// after it.
pub open spec fn serves(p: Option<PointModel>, ids: Seq<u32>) -> bool {
    match valid_prefix(p) {
        None => false,
        Some(x) => x.len() < ids.len() && x == ids.take(x.len() as int),
    }
}

/// A point that is no longer valid.
pub open spec fn invalidated(p: Option<PointModel>) -> Option<PointModel> {
    match p {
        None => None,
        Some(p) => Some(PointModel { prefix: None, ..p }),
    }
}

/// A point that is no longer valid if its prefix goes past a position.
pub open spec fn invalidated_above(p: Option<PointModel>, position: int) -> Option<PointModel> {
    match valid_prefix(p) {
        Some(x) if x.len() > position => invalidated(p),
        _ => p,
    }
}

impl PointsModel {
    /// A slot's point.
    pub open spec fn slot(self, s: RewindSlot) -> Option<PointModel> {
        match s {
            RewindSlot::StableBoundary => self.stable_boundary,
            RewindSlot::EndOfTurn => self.end_of_turn,
        }
    }

    /// With another point in a slot.
    pub open spec fn with_slot(self, s: RewindSlot, p: PointModel) -> PointsModel {
        match s {
            RewindSlot::StableBoundary => PointsModel { stable_boundary: Some(p), ..self },
            RewindSlot::EndOfTurn => PointsModel { end_of_turn: Some(p), ..self },
        }
    }

    /// With a slot's point invalid.
    pub open spec fn without(self, s: RewindSlot) -> PointsModel {
        match s {
            RewindSlot::StableBoundary => PointsModel {
                stable_boundary: invalidated(self.stable_boundary),
                ..self
            },
            RewindSlot::EndOfTurn => PointsModel {
                end_of_turn: invalidated(self.end_of_turn),
                ..self
            },
        }
    }

    /// No point is valid any more.
    pub open spec fn none_valid(self) -> PointsModel {
        PointsModel {
            stable_boundary: invalidated(self.stable_boundary),
            end_of_turn: invalidated(self.end_of_turn),
        }
    }

    /// No point past a position is valid any more.
    pub open spec fn none_valid_above(self, position: int) -> PointsModel {
        PointsModel {
            stable_boundary: invalidated_above(self.stable_boundary, position),
            end_of_turn: invalidated_above(self.end_of_turn, position),
        }
    }

    /// The slot with the longest prefix that can serve a prompt; the end of
    /// the turn where both are equally long.
    pub open spec fn best_slot(self, ids: Seq<u32>) -> Option<RewindSlot> {
        let a = serves(self.stable_boundary, ids);
        let b = serves(self.end_of_turn, ids);
        if a && (!b || valid_prefix(self.stable_boundary)->0.len() > valid_prefix(
            self.end_of_turn,
        )->0.len()) {
            Some(RewindSlot::StableBoundary)
        } else if b {
            Some(RewindSlot::EndOfTurn)
        } else {
            None
        }
    }

    /// Every valid point describes the tokens that are on the device.
    pub open spec fn describes(self, live: Seq<u32>) -> bool {
        describes_point(self.stable_boundary, live) && describes_point(self.end_of_turn, live)
    }
}

/// A point, if valid, keeps a prefix of the tokens that are on the device.
pub open spec fn describes_point(p: Option<PointModel>, live: Seq<u32>) -> bool {
    match valid_prefix(p) {
        None => true,
        Some(x) => x.len() <= live.len() && x == live.take(x.len() as int),
    }
}

/// A slot's valid prefix is a strict prefix of a prompt.
pub open spec fn leads_to(m: PointsModel, slot: RewindSlot, ids: Seq<u32>) -> bool {
    match valid_prefix(m.slot(slot)) {
        None => false,
        Some(x) => x.is_prefix_of(ids) && x != ids,
    }
}

/// A prompt is taken up from the slot with the longest strict prefix of it,
/// so that at least one token is left; nothing is found only where no slot
/// has one.
pub proof fn law_longest_strict_prefix_is_taken_up(m: PointsModel, ids: Seq<u32>, other: RewindSlot)
    ensures
        match m.best_slot(ids) {
            Some(slot) => {
                &&& leads_to(m, slot, ids)
                &&& leads_to(m, other, ids) ==> valid_prefix(m.slot(other))->0.len()
                    <= valid_prefix(m.slot(slot))->0.len()
            },
            None => !leads_to(m, other, ids),
        },
{
    lemma_serves(m.stable_boundary, ids);
    lemma_serves(m.end_of_turn, ids);
}

proof fn lemma_serves(p: Option<PointModel>, ids: Seq<u32>)
    ensures
        serves(p, ids) <==> valid_prefix(p) is Some && valid_prefix(p)->0.is_prefix_of(ids)
            && valid_prefix(p)->0 != ids,
{
    if let Some(x) = valid_prefix(p) {
        assert(ids.subrange(0, x.len() as int) =~= ids.take(x.len() as int) || x.len() > ids.len());
        if x.is_prefix_of(ids) && x.len() == ids.len() {
            assert(x =~= ids);
        }
    }
}

/// What was saved is taken up by any prompt that goes on from it, or
/// something longer is; until the points are invalidated, and then nothing.
pub proof fn law_saved_point_is_taken_up(
    m: PointsModel,
    slot: RewindSlot,
    p: PointModel,
    ids: Seq<u32>,
)
    requires
        p.prefix is Some,
        p.prefix->0.is_prefix_of(ids),
        p.prefix->0 != ids,
    ensures
        ({
            let saved = m.with_slot(slot, p);
            &&& saved.slot(slot) == Some(p)
            &&& forall|t: RewindSlot| t != slot ==> #[trigger] saved.slot(t) == m.slot(t)
            &&& saved.best_slot(ids) is Some
            &&& valid_prefix(saved.slot(saved.best_slot(ids)->0))->0.len() >= p.prefix->0.len()
            &&& saved.none_valid().best_slot(ids) is None
            &&& saved.none_valid_above(p.prefix->0.len() as int).slot(slot) == Some(p)
            &&& p.prefix->0.len() > 0 ==> valid_prefix(
                saved.none_valid_above(p.prefix->0.len() - 1).slot(slot),
            ) is None
        }),
{
    let saved = m.with_slot(slot, p);
    law_longest_strict_prefix_is_taken_up(saved, ids, slot);
    assert(leads_to(saved, slot, ids));
}

/// Processing more tokens keeps every valid point true.
pub proof fn law_more_tokens_keep_points_true(m: PointsModel, live: Seq<u32>, more: Seq<u32>)
    requires
        m.describes(live),
    ensures
        m.describes(live + more),
{
    lemma_longer(m.stable_boundary, live, more);
    lemma_longer(m.end_of_turn, live, more);
}

proof fn lemma_longer(p: Option<PointModel>, live: Seq<u32>, more: Seq<u32>)
    requires
        describes_point(p, live),
    ensures
        describes_point(p, live + more),
{
    match valid_prefix(p) {
        None => {},
        Some(x) => {
            assert((live + more).take(x.len() as int) =~= live.take(x.len() as int));
        },
    }
}

/// Rewinding to a served prefix leaves only points that are true of the
/// tokens up to there, and those tokens are the prompt's own.
pub proof fn law_rewinding_keeps_points_true(
    m: PointsModel,
    live: Seq<u32>,
    ids: Seq<u32>,
    slot: RewindSlot,
)
    requires
        m.describes(live),
        m.best_slot(ids) == Some(slot),
    ensures
        ({
            let p = valid_prefix(m.slot(slot))->0;
            &&& p.len() <= live.len()
            &&& live.take(p.len() as int) == ids.take(p.len() as int)
            &&& m.none_valid_above(p.len() as int).describes(live.take(p.len() as int))
            &&& valid_prefix(m.none_valid_above(p.len() as int).slot(slot)) == Some(p)
        }),
{
    let p = valid_prefix(m.slot(slot))->0;
    lemma_cut(m.stable_boundary, live, p.len() as int);
    lemma_cut(m.end_of_turn, live, p.len() as int);
}

proof fn lemma_cut(p: Option<PointModel>, live: Seq<u32>, n: int)
    requires
        describes_point(p, live),
        0 <= n <= live.len(),
    ensures
        describes_point(invalidated_above(p, n), live.take(n)),
{
    match valid_prefix(p) {
        Some(x) if x.len() <= n => {
            assert(live.take(n).take(x.len() as int) =~= live.take(x.len() as int));
        },
        _ => {},
    }
}

/// Saving the tokens that are on the device keeps every valid point true.
pub proof fn law_saving_keeps_points_true(
    m: PointsModel,
    live: Seq<u32>,
    slot: RewindSlot,
    p: PointModel,
)
    requires
        m.describes(live),
        p.prefix == Some(live),
    ensures
        m.with_slot(slot, p).describes(live),
{
    assert(live.take(live.len() as int) =~= live);
}

/// A fresh sequence has no valid point, so none can be wrong about it.
pub proof fn law_fresh_sequence_has_no_points(m: PointsModel, live: Seq<u32>, ids: Seq<u32>)
    ensures
        m.none_valid().describes(live),
        m.none_valid().best_slot(ids) is None,
{
}

/// Whether a prompt goes on after a prefix.
fn strictly_extends(ids: &[u32], prefix: &Vec<u32>) -> (r: bool)
    ensures
        r == (prefix@.len() < ids@.len() && prefix@ == ids@.take(prefix@.len() as int)),
{
    if prefix.len() >= ids.len() {
        return false;
    }
    let mut i: usize = 0;
    while i < prefix.len()
        invariant
            i <= prefix@.len(),
            prefix@.len() < ids@.len(),
            forall|j: int| 0 <= j < i ==> prefix@[j] == ids@[j],
        decreases prefix@.len() - i,
    {
        if prefix[i] != ids[i] {
            proof {
                assert(ids@.take(prefix@.len() as int)[i as int] == ids@[i as int]);
            }
            return false;
        }
        i = i + 1;
    }
    proof {
        assert(prefix@ =~= ids@.take(prefix@.len() as int));
    }
    true
}

fn served_len(point: &Option<RewindPoint>, ids: &[u32]) -> (r: Option<usize>)
    ensures
        match r {
            Some(n) => serves(point_view(*point), ids@) && n == valid_prefix(
                point_view(*point),
            )->0.len(),
            None => !serves(point_view(*point), ids@),
        },
{
    match point {
        None => None,
        Some(p) => match &p.prefix {
            None => None,
            Some(prefix) => if strictly_extends(ids, prefix) {
                Some(prefix.len())
            } else {
                None
            },
        },
    }
}

fn drop_prefix(point: &mut Option<RewindPoint>)
    ensures
        point_view(*final(point)) == invalidated(point_view(*old(point))),
{
    match point.take() {
        None => {},
        Some(p) => {
            *point = Some(RewindPoint { prefix: None, storage: p.storage });
        },
    }
}

fn drop_prefix_above(point: &mut Option<RewindPoint>, position: usize)
    ensures
        point_view(*final(point)) == invalidated_above(point_view(*old(point)), position as int),
{
    let above: bool = match &*point {
        None => false,
        Some(p) => match &p.prefix {
            None => false,
            Some(prefix) => prefix.len() > position,
        },
    };
    if above {
        drop_prefix(point);
    }
}

impl RewindPoints {
    /// No slot is allocated.
    pub fn new() -> (r: Self)
        ensures
            r@ == (PointsModel { stable_boundary: None, end_of_turn: None }),
    {
        RewindPoints { stable_boundary: None, end_of_turn: None }
    }

    /// The longest valid slot whose prefix a prompt goes on after, and the
    /// length of that prefix.
    pub fn matching_slot(&self, token_ids: &[u32]) -> (r: Option<(RewindSlot, usize)>)
        ensures
            match r {
                None => self@.best_slot(token_ids@) is None,
                Some((slot, n)) => {
                    &&& self@.best_slot(token_ids@) == Some(slot)
                    &&& n == valid_prefix(self@.slot(slot))->0.len()
                    &&& n < token_ids@.len()
                },
            },
    {
        let a = served_len(&self.stable_boundary, token_ids);
        let b = served_len(&self.end_of_turn, token_ids);
        match (a, b) {
            (Some(x), Some(y)) => if x > y {
                Some((RewindSlot::StableBoundary, x))
            } else {
                Some((RewindSlot::EndOfTurn, y))
            },
            (Some(x), None) => Some((RewindSlot::StableBoundary, x)),
            (None, Some(y)) => Some((RewindSlot::EndOfTurn, y)),
            (None, None) => None,
        }
    }

    /// Makes a slot invalid; its storage stays allocated.
    pub fn invalidate(&mut self, slot: RewindSlot)
        ensures
            final(self)@ == old(self)@.without(slot),
    {
        match slot {
            RewindSlot::StableBoundary => drop_prefix(&mut self.stable_boundary),
            RewindSlot::EndOfTurn => drop_prefix(&mut self.end_of_turn),
        }
    }

    /// Makes every slot invalid; its storage stays allocated.
    pub fn invalidate_all(&mut self)
        ensures
            final(self)@ == old(self)@.none_valid(),
    {
        drop_prefix(&mut self.stable_boundary);
        drop_prefix(&mut self.end_of_turn);
    }

    /// Makes every slot past a position invalid; its storage stays allocated.
    pub fn invalidate_above(&mut self, position: usize)
        ensures
            final(self)@ == old(self)@.none_valid_above(position as int),
    {
        drop_prefix_above(&mut self.stable_boundary, position);
        drop_prefix_above(&mut self.end_of_turn, position);
    }

    /// Takes a slot's point out.
    pub fn take_slot(&mut self, slot: RewindSlot) -> (r: Option<RewindPoint>)
        ensures
            point_view(r) == old(self)@.slot(slot),
            final(self)@ == (match slot {
                RewindSlot::StableBoundary => PointsModel { stable_boundary: None, ..old(self)@ },
                RewindSlot::EndOfTurn => PointsModel { end_of_turn: None, ..old(self)@ },
            }),
    {
        match slot {
            RewindSlot::StableBoundary => self.stable_boundary.take(),
            RewindSlot::EndOfTurn => self.end_of_turn.take(),
        }
    }

    /// Puts a point into a slot.
    pub fn put_slot(&mut self, slot: RewindSlot, point: RewindPoint)
        ensures
            final(self)@ == old(self)@.with_slot(slot, point@),
    {
        match slot {
            RewindSlot::StableBoundary => {
                self.stable_boundary = Some(point);
            },
            RewindSlot::EndOfTurn => {
                self.end_of_turn = Some(point);
            },
        }
    }
}

} // verus!
