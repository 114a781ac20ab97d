//! State that is zeroed or copied whole: every linear-attention layer's
//! convolution and recurrence state, and every mixed layer's recent window.

use super::rewind::same_but_window;
use super::{cache_valid, cache_view, AttnCacheModel, AttnLayerCache, HybridCache, HybridModel};
use crate::qwen35::cache::plane::GdnLayerState;
use vstd::prelude::*;

verus! {

/// One linear-attention layer's state is to be zeroed.
#[derive(Debug, Clone, Copy, PartialEq, Eq, Structural)]
pub struct GdnZero {
    pub layer: usize,
    /// Elements of convolution history.
    pub conv_len: usize,
    /// Elements of recurrence state.
    pub state_len: usize,
}

/// A part of a layer's state that is copied whole.
#[derive(Debug, Clone, Copy, PartialEq, Eq, Structural)]
pub enum StatePart {
    /// Convolution history and recurrence state of a linear-attention layer.
    Gdn { conv_len: usize, state_len: usize },
    /// A mixed layer's window: so many elements of keys, and of values.
    Window { window_elems: usize },
}

/// Which copy of a layer's state.
#[derive(Debug, Clone, Copy, PartialEq, Eq, Structural)]
pub enum Side {
    /// The one that passes work on.
    Live,
    /// The one a rewind point keeps.
    Saved,
}

/// A copy on the device between a layer's state and a rewind point.
#[derive(Debug, Clone, Copy, PartialEq, Eq, Structural)]
pub struct StateCopy {
    pub layer: usize,
    pub part: StatePart,
    pub from: Side,
    pub to: Side,
}

/// What zeroes the first `n` layers' linear-attention state.
pub open spec fn zeroings_to(gdn: Seq<Option<GdnLayerState>>, n: nat) -> Seq<GdnZero>
    decreases n,
{
    if n == 0 {
        Seq::empty()
    } else {
        let before = zeroings_to(gdn, (n - 1) as nat);
        match gdn[n - 1] {
            None => before,
            Some(s) => before.push(
                GdnZero {
                    layer: (n - 1) as usize,
                    conv_len: s.conv_len,
                    state_len: s.state_len,
                },
            ),
        }
    }
}

/// What zeroes every layer's linear-attention state.
pub open spec fn zeroings(m: HybridModel) -> Seq<GdnZero> {
    zeroings_to(m.gdn, m.gdn.len())
}

/// Copies of the first `n` layers' linear-attention state.
pub open spec fn gdn_copies(
    gdn: Seq<Option<GdnLayerState>>,
    from: Side,
    to: Side,
    n: nat,
) -> Seq<StateCopy>
    decreases n,
{
    if n == 0 {
        Seq::empty()
    } else {
        let before = gdn_copies(gdn, from, to, (n - 1) as nat);
        match gdn[n - 1] {
            None => before,
            Some(s) => before.push(
                StateCopy {
                    layer: (n - 1) as usize,
                    part: StatePart::Gdn { conv_len: s.conv_len, state_len: s.state_len },
                    from,
                    to,
                },
            ),
        }
    }
}

/// Copies of the first `n` layers' windows.
pub open spec fn window_copies(
    attn: Seq<Option<AttnCacheModel>>,
    from: Side,
    to: Side,
    n: nat,
) -> Seq<StateCopy>
    decreases n,
{
    if n == 0 {
        Seq::empty()
    } else {
        let before = window_copies(attn, from, to, (n - 1) as nat);
        match attn[n - 1] {
            Some(AttnCacheModel::Mixed(p)) => before.push(
                StateCopy {
                    layer: (n - 1) as usize,
                    part: StatePart::Window { window_elems: p.lens(0).window },
                    from,
                    to,
                },
            ),
            _ => before,
        }
    }
}

/// Copies of everything that a rewind point keeps: every linear-attention
/// layer's state, then every window.
pub open spec fn state_copies(m: HybridModel, from: Side, to: Side) -> Seq<StateCopy> {
    gdn_copies(m.gdn, from, to, m.gdn.len()) + window_copies(m.attn, from, to, m.attn.len())
}

/// The same copies the other way round.
pub open spec fn exchanged(copies: Seq<StateCopy>) -> Seq<StateCopy> {
    copies.map_values(|c: StateCopy| StateCopy { from: c.to, to: c.from, ..c })
}

/// A place that holds a part of a layer's state.
pub struct Place {
    pub side: Side,
    pub layer: int,
    /// A window, instead of linear-attention state.
    pub window: bool,
}

/// Where a copy reads.
pub open spec fn source_of(c: StateCopy) -> Place {
    Place { side: c.from, layer: c.layer as int, window: c.part is Window }
}

/// Where a copy writes.
pub open spec fn target_of(c: StateCopy) -> Place {
    Place { side: c.to, layer: c.layer as int, window: c.part is Window }
}

/// What every place holds after a run of copies.
pub open spec fn after_copies(held: Map<Place, Seq<u32>>, copies: Seq<StateCopy>) -> Map<
    Place,
    Seq<u32>,
>
    decreases copies.len(),
{
    if copies.len() == 0 {
        held
    } else {
        let before = after_copies(held, copies.drop_last());
        before.insert(target_of(copies.last()), before[source_of(copies.last())])
    }
}

/// A layer holds state of that kind.
pub open spec fn holds_state(m: HybridModel, layer: int, window: bool) -> bool {
    if window {
        0 <= layer < m.attn.len() && (m.attn[layer] matches Some(AttnCacheModel::Mixed(_)))
    } else {
        0 <= layer < m.gdn.len() && m.gdn[layer] is Some
    }
}

/// Copies all go from one side to the other.
proof fn lemma_gdn_copies(gdn: Seq<Option<GdnLayerState>>, from: Side, to: Side, n: nat)
    requires
        n <= gdn.len(),
        gdn.len() <= usize::MAX,
    ensures
        forall|k: int|
            0 <= k < gdn_copies(gdn, from, to, n).len() ==> {
                let c = #[trigger] gdn_copies(gdn, from, to, n)[k];
                c.from == from && c.to == to && c.part is Gdn
            },
        forall|i: int|
            0 <= i < n && (#[trigger] gdn[i]) is Some ==> exists|k: int|
                0 <= k < gdn_copies(gdn, from, to, n).len() && (#[trigger] gdn_copies(
                    gdn,
                    from,
                    to,
                    n,
                )[k]).layer == i,
    decreases n,
{
    if n > 0 {
        let before = gdn_copies(gdn, from, to, (n - 1) as nat);
        let all = gdn_copies(gdn, from, to, n);
        lemma_gdn_copies(gdn, from, to, (n - 1) as nat);
        assert forall|k: int| 0 <= k < all.len() implies ({
            let c = #[trigger] all[k];
            c.from == from && c.to == to && c.part is Gdn
        }) by {
            if k < before.len() {
                assert(all[k] == before[k]);
            }
        }
        assert forall|i: int| 0 <= i < n && (#[trigger] gdn[i]) is Some implies exists|k: int|
            0 <= k < all.len() && (#[trigger] all[k]).layer == i by {
            if i < n - 1 {
                let k = choose|k: int| 0 <= k < before.len() && (#[trigger] before[k]).layer == i;
                assert(all[k] == before[k]);
            } else {
                assert(all[all.len() - 1].layer == i);
            }
        }
    }
}

proof fn lemma_window_copies(attn: Seq<Option<AttnCacheModel>>, from: Side, to: Side, n: nat)
    requires
        n <= attn.len(),
        attn.len() <= usize::MAX,
    ensures
        forall|k: int|
            0 <= k < window_copies(attn, from, to, n).len() ==> {
                let c = #[trigger] window_copies(attn, from, to, n)[k];
                c.from == from && c.to == to && c.part is Window
            },
        forall|i: int|
            0 <= i < n && ((#[trigger] attn[i]) matches Some(AttnCacheModel::Mixed(_)))
                ==> exists|k: int|
                0 <= k < window_copies(attn, from, to, n).len() && (#[trigger] window_copies(
                    attn,
                    from,
                    to,
                    n,
                )[k]).layer == i,
    decreases n,
{
    if n > 0 {
        let before = window_copies(attn, from, to, (n - 1) as nat);
        let all = window_copies(attn, from, to, n);
        lemma_window_copies(attn, from, to, (n - 1) as nat);
        assert forall|k: int| 0 <= k < all.len() implies ({
            let c = #[trigger] all[k];
            c.from == from && c.to == to && c.part is Window
        }) by {
            if k < before.len() {
                assert(all[k] == before[k]);
            }
        }
        assert forall|i: int|
            0 <= i < n && ((#[trigger] attn[i]) matches Some(AttnCacheModel::Mixed(_))) implies exists|
            k: int,
        |
            0 <= k < all.len() && (#[trigger] all[k]).layer == i by {
            if i < n - 1 {
                let k = choose|k: int| 0 <= k < before.len() && (#[trigger] before[k]).layer == i;
                assert(all[k] == before[k]);
            } else {
                assert(all[all.len() - 1].layer == i);
            }
        }
    }
}

/// Copies from one side to the other leave the one as it was, and the other
/// with what the one holds.
proof fn lemma_after_copies(
    held: Map<Place, Seq<u32>>,
    copies: Seq<StateCopy>,
    from: Side,
    to: Side,
)
    requires
        from != to,
        forall|k: int|
            0 <= k < copies.len() ==> (#[trigger] copies[k]).from == from && copies[k].to == to,
    ensures
        forall|p: Place| p.side == from ==> #[trigger] after_copies(held, copies)[p] == held[p],
        forall|k: int|
            0 <= k < copies.len() ==> after_copies(held, copies)[target_of(#[trigger] copies[k])]
                == held[source_of(copies[k])],
    decreases copies.len(),
{
    if copies.len() > 0 {
        let front = copies.drop_last();
        let last = copies.last();
        assert forall|k: int| 0 <= k < front.len() implies (#[trigger] front[k]).from == from
            && front[k].to == to by {
            assert(front[k] == copies[k]);
        }
        assert(copies[copies.len() - 1] == last);
        lemma_after_copies(held, front, from, to);
        let before = after_copies(held, front);
        let after = after_copies(held, copies);
        assert(before[source_of(last)] == held[source_of(last)]);
        assert forall|k: int| 0 <= k < copies.len() implies after[target_of(#[trigger] copies[k])]
            == held[source_of(copies[k])] by {
            if k < front.len() {
                assert(front[k] == copies[k]);
                assert(before[target_of(front[k])] == held[source_of(front[k])]);
                if target_of(copies[k]) == target_of(last) {
                    assert(source_of(copies[k]) == source_of(last));
                }
            }
        }
    }
}

/// Every layer's state is copied over.
proof fn lemma_state_copied(
    held: Map<Place, Seq<u32>>,
    m: HybridModel,
    from: Side,
    to: Side,
    layer: int,
    window: bool,
)
    requires
        from != to,
        m.gdn.len() <= usize::MAX,
        m.attn.len() <= usize::MAX,
        holds_state(m, layer, window),
    ensures
        after_copies(held, state_copies(m, from, to))[Place { side: to, layer, window }]
            == held[Place { side: from, layer, window }],
{
    let g = gdn_copies(m.gdn, from, to, m.gdn.len());
    let w = window_copies(m.attn, from, to, m.attn.len());
    let all = state_copies(m, from, to);
    lemma_gdn_copies(m.gdn, from, to, m.gdn.len());
    lemma_window_copies(m.attn, from, to, m.attn.len());
    assert forall|k: int| 0 <= k < all.len() implies (#[trigger] all[k]).from == from && all[k].to
        == to by {
        if k < g.len() {
            assert(all[k] == g[k]);
        } else {
            assert(all[k] == w[k - g.len()]);
        }
    }
    lemma_after_copies(held, all, from, to);
    if window {
        assert(m.attn[layer] matches Some(AttnCacheModel::Mixed(_)));
        let k = choose|k: int| 0 <= k < w.len() && (#[trigger] w[k]).layer == layer;
        let c = all[g.len() + k];
        assert(c == w[k]);
        assert(target_of(c) == (Place { side: to, layer, window }));
        assert(source_of(c) == (Place { side: from, layer, window }));
    } else {
        assert(m.gdn[layer] is Some);
        let k = choose|k: int| 0 <= k < g.len() && (#[trigger] g[k]).layer == layer;
        let c = all[k];
        assert(c == g[k]);
        assert(target_of(c) == (Place { side: to, layer, window }));
        assert(source_of(c) == (Place { side: from, layer, window }));
    }
}

proof fn lemma_exchanged(m: HybridModel, now: HybridModel, n: nat)
    requires
        n <= m.gdn.len(),
        n <= m.attn.len(),
        now.gdn == m.gdn,
        now.attn.len() == m.attn.len(),
        forall|i: int|
            0 <= i < now.attn.len() ==> same_but_window(m.attn[i], #[trigger] now.attn[i]),
    ensures
        gdn_copies(now.gdn, Side::Saved, Side::Live, n) == exchanged(
            gdn_copies(m.gdn, Side::Live, Side::Saved, n),
        ),
        window_copies(now.attn, Side::Saved, Side::Live, n) == exchanged(
            window_copies(m.attn, Side::Live, Side::Saved, n),
        ),
    decreases n,
{
    if n > 0 {
        lemma_exchanged(m, now, (n - 1) as nat);
        assert(same_but_window(m.attn[n - 1], now.attn[n - 1]));
    }
    assert(gdn_copies(now.gdn, Side::Saved, Side::Live, n) =~= exchanged(
        gdn_copies(m.gdn, Side::Live, Side::Saved, n),
    ));
    assert(window_copies(now.attn, Side::Saved, Side::Live, n) =~= exchanged(
        window_copies(m.attn, Side::Live, Side::Saved, n),
    ));
}

/// What rewinding copies is what saving copied, the other way round.
pub proof fn lemma_copies_exchanged(saved: HybridModel, now: HybridModel)
    requires
        saved.valid(),
        now.gdn == saved.gdn,
        now.attn.len() == saved.attn.len(),
        forall|i: int|
            0 <= i < now.attn.len() ==> same_but_window(saved.attn[i], #[trigger] now.attn[i]),
    ensures
        state_copies(now, Side::Saved, Side::Live) == exchanged(
            state_copies(saved, Side::Live, Side::Saved),
        ),
{
    lemma_exchanged(saved, now, saved.gdn.len());
    assert(state_copies(now, Side::Saved, Side::Live) =~= exchanged(
        state_copies(saved, Side::Live, Side::Saved),
    ));
}

/// What rewinding copies is what saving copied, the other way round, and so
/// every linear-attention layer's state and every window is again what it was
/// when it was saved, whatever passes have made of it since, as long as the
/// rewind point itself was left alone.
pub proof fn law_saved_state_comes_back(
    saved: HybridModel,
    now: HybridModel,
    before: Map<Place, Seq<u32>>,
    later: Map<Place, Seq<u32>>,
    layer: int,
    window: bool,
)
    requires
        saved.valid(),
        saved.gdn.len() <= usize::MAX,
        now.gdn == saved.gdn,
        now.attn.len() == saved.attn.len(),
        forall|i: int|
            0 <= i < now.attn.len() ==> same_but_window(saved.attn[i], #[trigger] now.attn[i]),
        forall|p: Place|
            p.side == Side::Saved ==> #[trigger] later[p] == after_copies(
                before,
                state_copies(saved, Side::Live, Side::Saved),
            )[p],
        holds_state(saved, layer, window),
    ensures
        state_copies(now, Side::Saved, Side::Live) == exchanged(
            state_copies(saved, Side::Live, Side::Saved),
        ),
        after_copies(later, state_copies(now, Side::Saved, Side::Live))[Place {
            side: Side::Live,
            layer,
            window,
        }] == before[Place { side: Side::Live, layer, window }],
{
    lemma_copies_exchanged(saved, now);
    if window {
        assert(same_but_window(saved.attn[layer], now.attn[layer]));
    }
    assert(holds_state(now, layer, window));
    lemma_state_copied(before, saved, Side::Live, Side::Saved, layer, window);
    lemma_state_copied(later, now, Side::Saved, Side::Live, layer, window);
}

impl HybridCache {
    /// What zeroes every layer's linear-attention state.
    pub fn zeroings(&self) -> (r: Vec<GdnZero>)
        ensures
            r@ == zeroings(self@),
    {
        let mut out: Vec<GdnZero> = Vec::new();
        let mut i: usize = 0;
        while i < self.gdn.len()
            invariant
                i <= self.gdn@.len(),
                out@ == zeroings_to(self.gdn@, i as nat),
            decreases self.gdn@.len() - i,
        {
            match self.gdn[i] {
                None => {},
                Some(s) => out.push(
                    GdnZero { layer: i, conv_len: s.conv_len, state_len: s.state_len },
                ),
            }
            i = i + 1;
        }
        out
    }

    /// Copies of everything that a rewind point keeps.
    pub fn state_copies(&self, from: Side, to: Side) -> (r: Vec<StateCopy>)
        requires
            self.wf(),
        ensures
            r@ == state_copies(self@, from, to),
    {
        let mut out: Vec<StateCopy> = Vec::new();
        let mut i: usize = 0;
        while i < self.gdn.len()
            invariant
                i <= self.gdn@.len(),
                out@ == gdn_copies(self.gdn@, from, to, i as nat),
            decreases self.gdn@.len() - i,
        {
            match self.gdn[i] {
                None => {},
                Some(s) => {
                    let part = StatePart::Gdn { conv_len: s.conv_len, state_len: s.state_len };
                    out.push(StateCopy { layer: i, part, from, to });
                },
            }
            i = i + 1;
        }
        let ghost first = out@;
        let mut k: usize = 0;
        proof {
            assert(first + window_copies(self@.attn, from, to, 0) =~= first);
        }
        while k < self.attn.len()
            invariant
                self.wf(),
                k <= self.attn@.len(),
                out@ == first + window_copies(self@.attn, from, to, k as nat),
            decreases self.attn@.len() - k,
        {
            let ghost held = out@;
            proof {
                assert(self@.attn[k as int] == cache_view(self.attn@[k as int]));
                assert(cache_valid(self@.attn[k as int]));
            }
            match &self.attn[k] {
                Some(AttnLayerCache::Mixed(p)) => {
                    let part = StatePart::Window { window_elems: p.window_elems() };
                    out.push(StateCopy { layer: k, part, from, to });
                },
                _ => {},
            }
            k = k + 1;
            proof {
                assert(out@ =~= first + window_copies(self@.attn, from, to, k as nat));
            }
        }
        out
    }
}

} // verus!
