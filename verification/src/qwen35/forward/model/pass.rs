//! One pass through the model: a single token, or a chunk of a prompt. A
//! pass runs layer after layer; at a mixture of experts it waits for the
//! router's choice to be read back, and goes on from there.

use super::{begun_fits, pass_fits, Begun, BegunModel, Model, ModelState, Pending, CHUNK_CAP};
use crate::bytes::copy_tokens;
use crate::error::{ConfigError, ErrorModel, RocmlError};
use crate::qwen35::cache::hybrid::rewind::{
    layout_matches, lemma_same_as_itself, lemma_same_either_way, lemma_same_through, restorable,
    rewound_layer, same_but_window, window_restorable,
};
use crate::qwen35::cache::hybrid::{
    cache_valid, cache_view, cache_views, is_mixed, AttnCacheModel, AttnLayerCache, HybridCache,
    HybridModel,
};
use crate::qwen35::config::{ConfigModel, MoeConfig, Qwen35Config};
use crate::qwen35::forward::dims::{lemma_fewer_rows_fit, lemma_scaled};
use crate::qwen35::forward::layer::{
    close_layer, layer_appended, layer_at, layer_close, layer_fits, layer_ok, layer_open,
    lemma_layer_advances, lemma_layer_open_ops, open_layer, sizes_fit, PassParams, Profile,
};
use crate::qwen35::forward::model::point_usable;
use crate::qwen35::forward::moe::{
    cache_ready, is_routed_plan, moe_ffn_step, moe_route_ops, moe_route_step, RoutedPlan,
};
use crate::qwen35::forward::moe_chunk::{
    is_routed_chunk_plan, moe_ffn_chunk_step, oversized, routing_error, RoutedChunkPlan,
};
use crate::qwen35::forward::plan::{
    lemma_ops_concat, lemma_ops_none, lemma_ops_runs, lemma_ops_scope, ops_of, push_runs,
    push_scope, runs, scope, start, At, Buf, Eps, Linear, Op, OpKind, Step, Term,
};
use crate::qwen35::forward::rewind::PointModel;
use crate::qwen35::moe::expert_cache::CacheModel;
use crate::qwen35::moe::route::{all_valid, groups, routes};
use crate::qwen35::weights::{Ffn, LayerWeights};
use vstd::prelude::*;

verus! {

/// The first layer, from `from` on, that has to wait for its router.
pub open spec fn waits_at(layers: Seq<LayerWeights>, from: int) -> Option<int>
    decreases layers.len() - from,
{
    if from >= layers.len() {
        None
    } else if layers[from].spec_ffn() is Moe {
        Some(from)
    } else {
        waits_at(layers, from + 1)
    }
}

/// The first layer that is not reached before the next wait, or the number
/// of layers.
pub open spec fn next_stop(layers: Seq<LayerWeights>, from: int) -> int {
    match waits_at(layers, from) {
        Some(i) => i + 1,
        None => layers.len() as int,
    }
}

/// The steps of layers `from` to `to`.
pub open spec fn opened(s: ModelState, p: PassParams, from: int, to: int) -> Seq<Step>
    decreases to - from,
{
    if to <= from {
        Seq::empty()
    } else {
        opened(s, p, from, to - 1) + layer_open(
            s.config,
            s.layers[to - 1],
            s.cache.attn[to - 1],
            s.cache.max_seq,
            s.pos,
            to - 1,
            p,
        )
    }
}

/// The cache after layers `from` to `to` have taken a pass's positions.
pub open spec fn advanced(m: HybridModel, pos: int, rows: nat, from: int, to: int) -> HybridModel {
    HybridModel {
        attn: Seq::new(
            m.attn.len(),
            |i: int|
                if from <= i < to {
                    layer_appended(m.attn[i], pos, rows)
                } else {
                    m.attn[i]
                },
        ),
        ..m
    }
}

/// Layers taken in two goes are the layers taken in one.
pub proof fn law_segments_of_a_pass_add_up(
    m: HybridModel,
    pos: int,
    rows: nat,
    from: int,
    mid: int,
    to: int,
)
    requires
        from <= mid <= to,
    ensures
        advanced(advanced(m, pos, rows, from, mid), pos, rows, mid, to) == advanced(
            m,
            pos,
            rows,
            from,
            to,
        ),
{
    assert(advanced(advanced(m, pos, rows, from, mid), pos, rows, mid, to).attn =~= advanced(
        m,
        pos,
        rows,
        from,
        to,
    ).attn);
}

/// Token ids to the device, and their embedding.
pub open spec fn embed_steps(c: ConfigModel, p: PassParams) -> Seq<Step> {
    runs(seq![Op::UploadTokens { tokens: p.rows }]) + scope(
        p.profile != Profile::Off,
        OpKind::Embed,
        seq![Term::Embed { hidden: c.embedding_length, tokens: p.rows }],
        seq![Op::Embedding { tokens: p.rows, hidden: c.embedding_length }],
    )
}

/// The final norm of the last row, and its logits.
pub open spec fn tail_norm_ops(c: ConfigModel, p: PassParams) -> Seq<Op> {
    seq![
        Op::Rmsnorm {
            x: At { buf: Buf::X, offset: ((p.rows - 1) * c.embedding_length) as usize },
            weight: Buf::OutputNorm,
            out: start(Buf::Xn),
            rows: 1,
            cols: c.embedding_length,
            eps: Eps::Rms,
        },
    ]
}

/// The logits of the row that was normalised last.
pub open spec fn lm_head_ops(c: ConfigModel) -> Seq<Op> {
    seq![
        Op::Matvec {
            w: Linear::Output,
            x: start(Buf::Xn),
            out: start(Buf::Logits),
            m: c.vocab_size,
            n: c.embedding_length,
        },
    ]
}

/// What ends a pass. A chunk's position moves once its layers are through,
/// whatever becomes of its logits; a token's position moves last.
pub open spec fn tail_steps(c: ConfigModel, p: PassParams) -> Seq<Step> {
    if p.chunk {
        seq![Step::Advance] + logits_steps(c, p)
    } else {
        logits_steps(c, p) + seq![Step::Advance]
    }
}

/// What gives a pass's logits: only the last row ever gets them, and only
/// when they are wanted.
pub open spec fn logits_steps(c: ConfigModel, p: PassParams) -> Seq<Step> {
    if p.want_logits {
        let scoped = p.profile != Profile::Off;
        seq![Step::Outside] + scope(
            scoped,
            OpKind::Norm,
            seq![Term::Norm { rows: 1, cols: c.embedding_length }],
            tail_norm_ops(c, p),
        ) + scope(
            scoped,
            OpKind::LmHead,
            seq![
                Term::Project { w: Linear::Output, m: c.vocab_size, n: c.embedding_length, rows: 1 },
            ],
            lm_head_ops(c),
        ) + runs(seq![Op::ReadLogits { vocab: c.vocab_size }])
    } else {
        Seq::empty()
    }
}

/// The steps from a layer on, up to the next wait or the end of the pass.
pub open spec fn moved_steps(s: ModelState, p: PassParams, from: int) -> Seq<Step> {
    opened(s, p, from, next_stop(s.layers, from)) + (if waits_at(s.layers, from) is None {
        tail_steps(s.config, p)
    } else {
        Seq::empty()
    })
}

/// The model after those steps were planned. The position stays: it moves
/// once the device has carried the pass out.
pub open spec fn moved(s: ModelState, p: PassParams, from: int) -> ModelState {
    let cache = advanced(s.cache, s.pos as int, p.rows as nat, from, next_stop(s.layers, from));
    match waits_at(s.layers, from) {
        Some(i) => ModelState {
            cache,
            pending: Some(Pending { params: p, layer: i as usize, row: 0 }),
            ..s
        },
        None => ModelState { cache, pending: None, ..s },
    }
}

/// A model whose pass begins.
pub open spec fn begun_by(s: ModelState, p: PassParams) -> ModelState {
    ModelState {
        begun: Some(
            BegunModel { rows: p.rows, attn: s.cache.attn, misses: misses_of(s.experts) },
        ),
        ..s
    }
}

/// How many experts have been given a slot so far.
pub open spec fn misses_of(experts: Option<CacheModel>) -> u64 {
    match experts {
        None => 0,
        Some(c) => c.misses,
    }
}

/// A model whose pass was carried out to its end.
pub open spec fn finished(s: ModelState) -> ModelState {
    match (s.begun, s.pending) {
        (Some(b), None) => ModelState { pos: (s.pos + b.rows) as u32, begun: None, ..s },
        _ => s,
    }
}

/// The layers' caches after a pass failed: those it had appended to, the
/// first `appended`, stay moved.
pub open spec fn appended_to(
    now: Seq<Option<AttnCacheModel>>,
    before: Seq<Option<AttnCacheModel>>,
    appended: int,
) -> Seq<Option<AttnCacheModel>> {
    Seq::new(
        before.len(),
        |i: int|
            if i < appended {
                now[i]
            } else {
                before[i]
            },
    )
}

/// The expert cache after a pass failed: a pass that has given an expert a
/// slot may have left anything in it, so nothing counts as cached.
pub open spec fn experts_left(now: Option<CacheModel>, before: u64) -> Option<CacheModel> {
    match now {
        Some(c) => if c.misses == before {
            Some(c)
        } else {
            Some(c.emptied())
        },
        None => None,
    }
}

/// A model whose pass failed after `appended` layers: the position is the one
/// before the pass.
pub open spec fn given_up(s: ModelState, appended: int) -> ModelState {
    match s.begun {
        None => s,
        Some(b) => ModelState {
            cache: HybridModel {
                attn: appended_to(s.cache.attn, b.attn, appended),
                ..s.cache
            },
            experts: experts_left(s.experts, b.misses),
            begun: None,
            pending: None,
            ..s
        },
    }
}

/// A pass that fails before its first router was answered changes nothing but
/// the windows of the layers it had appended to; one that had appended to none
/// leaves the model as it was.
pub proof fn law_failed_pass_leaves_the_model(s: ModelState, p: PassParams, appended: int)
    requires
        s.begun is None,
        s.pending is None,
    ensures
        ({
            let t = moved(begun_by(s, p), p, 0);
            &&& given_up(t, appended) == (ModelState {
                cache: given_up(t, appended).cache,
                ..s
            })
            &&& appended <= 0 ==> given_up(t, appended) == s
        }),
{
    let t = moved(begun_by(s, p), p, 0);
    assert(given_up(t, appended) =~= ModelState { cache: given_up(t, appended).cache, ..s });
    if appended <= 0 {
        assert(given_up(t, appended) =~= s);
    }
}

/// However far a pass has come, failing leaves the position and the rewind
/// points where they were; and once an expert was given a slot, no expert
/// counts as cached.
pub proof fn law_every_failure_keeps_the_position(
    s: ModelState,
    idx: Seq<i32>,
    weights: Seq<u32>,
    row: RoutedPlan,
    chunk: RoutedChunkPlan,
    t: ModelState,
    seg: Segment,
    appended: int,
)
    requires
        s.valid(),
        row_routed(s, idx, row, t, seg) || chunk_routed(s, idx, weights, chunk, t, seg),
    ensures
        given_up(t, appended) == (ModelState {
            cache: given_up(t, appended).cache,
            experts: experts_left(t.experts, s.begun->0.misses),
            ..given_up(s, appended)
        }),
        t.experts is Some && t.experts->0.misses != s.begun->0.misses ==> given_up(
            t,
            appended,
        ).experts == Some(t.experts->0.emptied()),
{
    assert(given_up(t, appended) =~= ModelState {
        cache: given_up(t, appended).cache,
        experts: experts_left(t.experts, s.begun->0.misses),
        ..given_up(s, appended)
    });
}

/// One position appended again is next again: a window that it moved starts
/// with it.
proof fn lemma_appended_again(c: ConfigModel, a: Option<AttnCacheModel>, max_seq: u32, pos: int)
    requires
        layer_at(c, a, max_seq, pos),
        pos < max_seq,
    ensures
        layer_at(c, layer_appended(a, pos, 1), max_seq, pos),
{
    lemma_layer_advances(c, a, max_seq, pos, 1);
    reveal_with_fuel(crate::qwen35::cache::layout::appended_each, 2);
}

/// After a token's pass has failed, wherever it did, another pass may begin.
pub proof fn law_failed_token_leaves_a_settled_model(s: ModelState, p: PassParams, appended: int)
    requires
        s.valid(),
        s.settled(),
        s.begun is None,
        p.rows == 1,
        s.pos < s.cache.max_seq,
    ensures
        given_up(moved(begun_by(s, p), p, 0), appended).settled(),
{
    let t = moved(begun_by(s, p), p, 0);
    let g = given_up(t, appended);
    assert forall|i: int| 0 <= i < g.cache.attn.len() implies layer_at(
        g.config,
        #[trigger] g.cache.attn[i],
        g.cache.max_seq,
        g.layer_pos(i),
    ) by {
        assert(layer_at(s.config, s.cache.attn[i], s.cache.max_seq, s.layer_pos(i)));
        lemma_appended_again(s.config, s.cache.attn[i], s.cache.max_seq, s.pos as int);
    }
}

/// A pass that was carried out moves the position by its tokens, and to
/// nowhere else: until then the position is the one it began at.
pub proof fn law_finished_pass_moves_the_position(s: ModelState, p: PassParams)
    requires
        s.begun is None,
        s.pos + p.rows <= u32::MAX,
    ensures
        moved(begun_by(s, p), p, 0).pos == s.pos,
        waits_at(s.layers, 0) is None ==> {
            let t = finished(moved(begun_by(s, p), p, 0));
            &&& t.pos == s.pos + p.rows
            &&& t.begun is None
            &&& t.pending is None
            &&& t.cache == moved(begun_by(s, p), p, 0).cache
        },
{
}

/// The same pass without a profiler.
pub open spec fn unprofiled(p: PassParams) -> PassParams {
    PassParams { profile: Profile::Off, ..p }
}

proof fn lemma_opened_ops(s: ModelState, p: PassParams, from: int, to: int)
    ensures
        ops_of(opened(s, p, from, to)) == ops_of(opened(s, unprofiled(p), from, to)),
    decreases to - from,
{
    if from < to {
        let q = unprofiled(p);
        let i = to - 1;
        let (w, a) = (s.layers[i], s.cache.attn[i]);
        lemma_opened_ops(s, p, from, i);
        lemma_layer_open_ops(s.config, w, a, s.cache.max_seq, s.pos, i, p);
        lemma_ops_concat(
            opened(s, p, from, i),
            layer_open(s.config, w, a, s.cache.max_seq, s.pos, i, p),
        );
        lemma_ops_concat(
            opened(s, q, from, i),
            layer_open(s.config, w, a, s.cache.max_seq, s.pos, i, q),
        );
    }
}

/// What the beginning of a pass runs.
pub proof fn lemma_embed_ops(c: ConfigModel, p: PassParams)
    ensures
        ops_of(embed_steps(c, p)) == seq![
            Op::UploadTokens { tokens: p.rows },
            Op::Embedding { tokens: p.rows, hidden: c.embedding_length },
        ],
{
    let scoped = p.profile != Profile::Off;
    let upload = seq![Op::UploadTokens { tokens: p.rows }];
    let terms = seq![Term::Embed { hidden: c.embedding_length, tokens: p.rows }];
    let embed = seq![Op::Embedding { tokens: p.rows, hidden: c.embedding_length }];
    lemma_ops_runs(upload);
    lemma_ops_scope(scoped, OpKind::Embed, terms, embed);
    lemma_ops_concat(runs(upload), scope(scoped, OpKind::Embed, terms, embed));
    assert(upload + embed =~= seq![upload[0], embed[0]]);
}

/// What the end of a pass runs.
pub proof fn lemma_tail_ops(c: ConfigModel, p: PassParams)
    ensures
        ops_of(tail_steps(c, p)) == (if p.want_logits {
            tail_norm_ops(c, p) + lm_head_ops(c) + seq![Op::ReadLogits { vocab: c.vocab_size }]
        } else {
            Seq::empty()
        }),
{
    let advance = seq![Step::Advance];
    lemma_ops_none(advance);
    lemma_ops_concat(advance, logits_steps(c, p));
    lemma_ops_concat(logits_steps(c, p), advance);
    assert(Seq::<Op>::empty() + ops_of(logits_steps(c, p)) =~= ops_of(logits_steps(c, p)));
    assert(ops_of(logits_steps(c, p)) + Seq::<Op>::empty() =~= ops_of(logits_steps(c, p)));
    if p.want_logits {
        let scoped = p.profile != Profile::Off;
        let norm_terms = seq![Term::Norm { rows: 1, cols: c.embedding_length }];
        let head_terms = seq![
            Term::Project { w: Linear::Output, m: c.vocab_size, n: c.embedding_length, rows: 1 },
        ];
        let s0 = seq![Step::Outside];
        let s1 = scope(scoped, OpKind::Norm, norm_terms, tail_norm_ops(c, p));
        let s2 = scope(scoped, OpKind::LmHead, head_terms, lm_head_ops(c));
        let read = seq![Op::ReadLogits { vocab: c.vocab_size }];
        lemma_ops_none(s0);
        lemma_ops_scope(scoped, OpKind::Norm, norm_terms, tail_norm_ops(c, p));
        lemma_ops_scope(scoped, OpKind::LmHead, head_terms, lm_head_ops(c));
        lemma_ops_runs(read);
        lemma_ops_concat(s0, s1);
        lemma_ops_concat(s0 + s1, s2);
        lemma_ops_concat(s0 + s1 + s2, runs(read));
        assert(Seq::<Op>::empty() + tail_norm_ops(c, p) =~= tail_norm_ops(c, p));
    }
}

/// Profiling, by layer or by stage, changes nothing about what the device
/// does, nor about the state the model is left in.
pub proof fn law_profiling_changes_no_operation(s: ModelState, p: PassParams, from: int)
    ensures
        ops_of(embed_steps(s.config, p)) == ops_of(embed_steps(s.config, unprofiled(p))),
        ops_of(moved_steps(s, p, from)) == ops_of(moved_steps(s, unprofiled(p), from)),
        moved(s, p, from).cache == moved(s, unprofiled(p), from).cache,
        moved(s, p, from).pos == moved(s, unprofiled(p), from).pos,
{
    let q = unprofiled(p);
    let stop = next_stop(s.layers, from);
    lemma_opened_ops(s, p, from, stop);
    lemma_tail_ops(s.config, p);
    lemma_tail_ops(s.config, q);
    let (tp, tq) = if waits_at(s.layers, from) is None {
        (tail_steps(s.config, p), tail_steps(s.config, q))
    } else {
        (Seq::<Step>::empty(), Seq::<Step>::empty())
    };
    lemma_ops_concat(opened(s, p, from, stop), tp);
    lemma_ops_concat(opened(s, q, from, stop), tq);
    lemma_embed_ops(s.config, p);
    lemma_embed_ops(s.config, q);
}

/// A part of a pass.
#[derive(Debug)]
pub struct Segment {
    /// Token ids to upload.
    pub ids: Vec<u32>,
    pub steps: Vec<Step>,
    /// The layer whose router has to be read back after the steps; none at
    /// the end of the pass.
    pub layer: Option<usize>,
}

/// Whether a segment takes the model from a layer on, up to the next wait or
/// the end of the pass.
pub open spec fn is_segment(
    s: ModelState,
    p: PassParams,
    from: int,
    before: Seq<Step>,
    ids: Seq<u32>,
    seg: Segment,
) -> bool {
    &&& seg.ids@ == ids
    &&& seg.steps@ == before + moved_steps(s, p, from)
    &&& match (waits_at(s.layers, from), seg.layer) {
        (None, None) => true,
        (Some(i), Some(l)) => l == i,
        _ => false,
    }
}

/// Rows are routed one at a time: a single token, or a diagnostic run.
pub open spec fn routes_rows(p: PassParams) -> bool {
    !p.chunk || p.captured
}

pub proof fn lemma_waits_at(layers: Seq<LayerWeights>, from: int)
    requires
        0 <= from <= layers.len(),
    ensures
        match waits_at(layers, from) {
            Some(i) => {
                &&& from <= i < layers.len()
                &&& layers[i].spec_ffn() is Moe
                &&& forall|j: int| from <= j < i ==> !((#[trigger] layers[j]).spec_ffn() is Moe)
            },
            None => forall|j: int|
                from <= j < layers.len() ==> !((#[trigger] layers[j]).spec_ffn() is Moe),
        },
    decreases layers.len() - from,
{
    if from < layers.len() && !(layers[from].spec_ffn() is Moe) {
        lemma_waits_at(layers, from + 1);
    }
}

/// Appending positions moves nothing but windows.
pub proof fn lemma_appended_same(a: Option<AttnCacheModel>, pos: int, rows: nat)
    ensures
        same_but_window(a, layer_appended(a, pos, rows)),
{
    match a {
        Some(AttnCacheModel::Mixed(m)) => {
            lemma_each_same(m.layout, pos, rows);
            let l = crate::qwen35::cache::layout::appended_each(m.layout, pos, rows);
            assert(m.with_layout(l) =~= m.with_layout(m.with_layout(l).layout));
        },
        _ => {},
    }
}

proof fn lemma_each_same(l: crate::qwen35::cache::layout::LayoutModel, pos: int, n: nat)
    ensures
        crate::qwen35::cache::layout::appended_each(l, pos, n).sink_len == l.sink_len,
        crate::qwen35::cache::layout::appended_each(l, pos, n).window_len == l.window_len,
    decreases n,
{
    if n > 0 {
        lemma_each_same(
            crate::qwen35::cache::layout::appended(l, pos),
            pos + 1,
            (n - 1) as nat,
        );
    }
}

/// A rewind point stays usable while windows move.
pub proof fn lemma_point_kept(
    c: ConfigModel,
    m: HybridModel,
    n: HybridModel,
    p: Option<PointModel>,
)
    requires
        point_usable(c, m, p),
        n.max_seq == m.max_seq,
        n.gdn == m.gdn,
        n.attn.len() == m.attn.len(),
        forall|i: int| 0 <= i < n.attn.len() ==> same_but_window(m.attn[i], #[trigger] n.attn[i]),
    ensures
        point_usable(c, n, p),
{
    match p {
        None => {},
        Some(x) => {
            assert(layout_matches(n, x.storage)) by {
                assert forall|i: int| 0 <= i < n.attn.len() implies is_mixed(#[trigger] n.attn[i])
                    == (x.storage.mixed[i] is Some) by {
                    assert(same_but_window(m.attn[i], n.attn[i]));
                    assert(is_mixed(m.attn[i]) == (x.storage.mixed[i] is Some));
                }
            }
            if x.prefix is Some {
                assert(restorable(n, x.storage)) by {
                    assert forall|i: int| 0 <= i < n.attn.len() implies window_restorable(
                        #[trigger] n.attn[i],
                        x.storage.mixed[i],
                    ) by {
                        assert(window_restorable(m.attn[i], x.storage.mixed[i]));
                        lemma_same_rewound(m.attn[i], n.attn[i], x.storage.mixed[i]);
                    }
                }
                assert forall|i: int| 0 <= i < n.attn.len() implies layer_ok(
                    c,
                    rewound_layer(#[trigger] n.attn[i], x.storage.mixed[i]),
                    n.max_seq,
                ) by {
                    assert(is_mixed(m.attn[i]) == (x.storage.mixed[i] is Some));
                    lemma_same_rewound(m.attn[i], n.attn[i], x.storage.mixed[i]);
                }
            }
        },
    }
}

proof fn lemma_same_rewound(
    a: Option<AttnCacheModel>,
    b: Option<AttnCacheModel>,
    w: Option<crate::qwen35::cache::mixed::MixedWindowRewind>,
)
    requires
        same_but_window(a, b),
    ensures
        window_restorable(a, w) == window_restorable(b, w),
        is_mixed(a) == (w is Some) ==> rewound_layer(a, w) == rewound_layer(b, w),
{
    match (a, b, w) {
        (Some(AttnCacheModel::Mixed(p)), Some(AttnCacheModel::Mixed(q)), Some(x)) => {
            let lp = crate::qwen35::cache::mixed::layout_at(p, x.window_base);
            let lq = crate::qwen35::cache::mixed::layout_at(q, x.window_base);
            assert(lp =~= lq);
            assert(p.with_layout(lp) =~= q.with_layout(lq));
        },
        _ => {},
    }
}

/// A model that has moved on is still consistent.
proof fn lemma_moved_valid(s: ModelState, p: PassParams, from: int)
    requires
        s.layers.len() <= usize::MAX,
        0 <= from <= s.layers.len(),
        pass_fits(p, s.pos as int, s.cache.max_seq),
        sizes_fit(s.config, s.cache.max_seq, CHUNK_CAP as int),
        s.cache.valid(),
        s.layers.len() == s.config.layer_kinds.len(),
        s.layers.len() == s.cache.attn.len(),
        s.layers.len() <= u32::MAX,
        forall|i: int|
            0 <= i < s.layers.len() ==> layer_fits(s.config, s.cache, #[trigger] s.layers[i], i),
        forall|i: int|
            from <= i < s.cache.attn.len() ==> layer_at(
                s.config,
                #[trigger] s.cache.attn[i],
                s.cache.max_seq,
                s.pos as int,
            ),
        forall|i: int|
            0 <= i < from ==> layer_at(
                s.config,
                #[trigger] s.cache.attn[i],
                s.cache.max_seq,
                s.pos + p.rows,
            ),
        s.config.moe matches Some(m) ==> m.expert_used_count >= 1,
        s.begun is Some,
        s.begun->0.rows == p.rows,
        begun_fits(s.config, s.cache, s.pos as int, s.begun->0),
        point_usable(s.config, s.cache, s.points.stable_boundary),
        point_usable(s.config, s.cache, s.points.end_of_turn),
    ensures
        moved(s, p, from).valid(),
{
    let stop = next_stop(s.layers, from);
    let t = moved(s, p, from);
    let n = advanced(s.cache, s.pos as int, p.rows as nat, from, stop);
    lemma_waits_at(s.layers, from);
    assert forall|i: int| 0 <= i < n.attn.len() implies same_but_window(
        s.cache.attn[i],
        #[trigger] n.attn[i],
    ) by {
        lemma_appended_same(s.cache.attn[i], s.pos as int, p.rows as nat);
    }
    lemma_point_kept(s.config, s.cache, n, s.points.stable_boundary);
    lemma_point_kept(s.config, s.cache, n, s.points.end_of_turn);
    let b = s.begun->0;
    assert forall|i: int| 0 <= i < b.attn.len() implies cache_valid(#[trigger] b.attn[i])
        && same_but_window(b.attn[i], n.attn[i]) && layer_at(
        s.config,
        b.attn[i],
        n.max_seq,
        s.pos as int,
    ) by {
        lemma_same_through(b.attn[i], s.cache.attn[i], n.attn[i]);
    }
    assert forall|i: int| 0 <= i < n.attn.len() implies layer_at(
        s.config,
        #[trigger] n.attn[i],
        n.max_seq,
        t.layer_pos(i),
    ) && crate::qwen35::cache::hybrid::cache_valid(n.attn[i]) by {
        assert(crate::qwen35::cache::hybrid::cache_valid(s.cache.attn[i]));
        if from <= i < stop {
            assert(layer_at(s.config, s.cache.attn[i], s.cache.max_seq, s.pos as int));
            lemma_layer_advances(
                s.config,
                s.cache.attn[i],
                s.cache.max_seq,
                s.pos as int,
                p.rows as nat,
            );
        } else {
            assert(layer_at(s.config, s.cache.attn[i], s.cache.max_seq, if i < from {
                s.pos + p.rows
            } else {
                s.pos as int
            }));
        }
    }
    assert forall|i: int| 0 <= i < t.layers.len() implies layer_fits(
        t.config,
        t.cache,
        #[trigger] t.layers[i],
        i,
    ) by {
        assert(layer_fits(s.config, s.cache, s.layers[i], i));
        assert(same_but_window(s.cache.attn[i], n.attn[i]));
    }
}

/// A model whose pass was given up is still consistent.
proof fn lemma_given_up_valid(s: ModelState, appended: int)
    requires
        s.valid(),
    ensures
        given_up(s, appended).valid(),
{
    let t = given_up(s, appended);
    if s.begun is Some {
        let b = s.begun->0;
        assert forall|i: int| 0 <= i < t.cache.attn.len() implies layer_ok(
            t.config,
            #[trigger] t.cache.attn[i],
            t.cache.max_seq,
        ) && same_but_window(s.cache.attn[i], t.cache.attn[i]) && cache_valid(t.cache.attn[i]) by {
            assert(cache_valid(b.attn[i]));
            assert(cache_valid(s.cache.attn[i]));
            assert(layer_ok(s.config, s.cache.attn[i], s.cache.max_seq));
            lemma_same_either_way(b.attn[i], s.cache.attn[i]);
            lemma_same_as_itself(s.cache.attn[i]);
        }
        lemma_point_kept(s.config, s.cache, t.cache, s.points.stable_boundary);
        lemma_point_kept(s.config, s.cache, t.cache, s.points.end_of_turn);
        assert forall|i: int| 0 <= i < t.layers.len() implies layer_fits(
            t.config,
            t.cache,
            #[trigger] t.layers[i],
            i,
        ) by {
            assert(layer_fits(s.config, s.cache, s.layers[i], i));
            assert(same_but_window(s.cache.attn[i], t.cache.attn[i]));
        }
    }
}

/// Plans layers from `from` on, up to the next wait or the last layer.
fn run_layers(
    steps: &mut Vec<Step>,
    config: &Qwen35Config,
    layers: &Vec<LayerWeights>,
    cache: &mut HybridCache,
    pos: u32,
    p: &PassParams,
    from: usize,
    Ghost(s): Ghost<ModelState>,
) -> (r: Option<usize>)
    requires
        s.config == config@,
        s.layers == layers@,
        s.cache == old(cache)@,
        s.pos == pos,
        from <= layers@.len(),
        pass_fits(*p, pos as int, s.cache.max_seq),
        sizes_fit(s.config, s.cache.max_seq, CHUNK_CAP as int),
        s.cache.valid(),
        s.layers.len() == s.config.layer_kinds.len(),
        s.layers.len() == s.cache.attn.len(),
        s.layers.len() <= u32::MAX,
        forall|i: int|
            0 <= i < s.layers.len() ==> layer_fits(s.config, s.cache, #[trigger] s.layers[i], i),
        forall|i: int|
            from <= i < s.cache.attn.len() ==> layer_at(
                s.config,
                #[trigger] s.cache.attn[i],
                s.cache.max_seq,
                s.pos as int,
            ),
    ensures
        final(cache).wf(),
        final(cache)@ == advanced(
            s.cache,
            pos as int,
            p.rows as nat,
            from as int,
            next_stop(s.layers, from as int),
        ),
        final(steps)@ == old(steps)@ + opened(
            s,
            *p,
            from as int,
            next_stop(s.layers, from as int),
        ),
        match (waits_at(s.layers, from as int), r) {
            (None, None) => true,
            (Some(i), Some(l)) => l == i,
            _ => false,
        },
{
    let ghost before = steps@;
    let mut i: usize = from;
    proof {
        lemma_fewer_rows_fit(s.config, CHUNK_CAP as int, p.rows as int);
        assert(advanced(s.cache, pos as int, p.rows as nat, from as int, from as int).attn
            =~= s.cache.attn);
    }
    while i < layers.len()
        invariant
            from <= i <= layers@.len(),
            before == old(steps)@,
            s.config == config@,
            s.layers == layers@,
            s.pos == pos,
            pass_fits(*p, pos as int, s.cache.max_seq),
            sizes_fit(s.config, s.cache.max_seq, p.rows as int),
            s.cache.valid(),
            s.layers.len() == s.config.layer_kinds.len(),
            s.layers.len() == s.cache.attn.len(),
            s.layers.len() <= u32::MAX,
            forall|j: int|
                0 <= j < s.layers.len() ==> layer_fits(
                    s.config,
                    s.cache,
                    #[trigger] s.layers[j],
                    j,
                ),
            forall|j: int|
                from <= j < s.cache.attn.len() ==> layer_at(
                    s.config,
                    #[trigger] s.cache.attn[j],
                    s.cache.max_seq,
                    s.pos as int,
                ),
            cache.wf(),
            cache@ == advanced(s.cache, pos as int, p.rows as nat, from as int, i as int),
            steps@ == before + opened(s, *p, from as int, i as int),
            waits_at(s.layers, from as int) == waits_at(s.layers, i as int),
        decreases layers@.len() - i,
    {
        let ghost m = cache@;
        proof {
            assert(m.attn[i as int] == s.cache.attn[i as int]);
            assert(layer_fits(s.config, s.cache, s.layers[i as int], i as int));
        }
        let w = layers[i];
        open_layer(steps, config, &w, cache, i, pos, p);
        proof {
            let next = advanced(s.cache, pos as int, p.rows as nat, from as int, i + 1);
            assert(cache@.attn =~= next.attn);
            assert(steps@ =~= before + opened(s, *p, from as int, i + 1));
        }
        let is_moe: bool = match w.ffn() {
            Ffn::Moe(_) => true,
            Ffn::Dense(_) => false,
        };
        if is_moe {
            return Some(i);
        }
        i = i + 1;
    }
    None
}

fn push_tail(steps: &mut Vec<Step>, config: &Qwen35Config, p: &PassParams)
    requires
        1 <= p.rows,
        p.rows * config.embedding_length <= u32::MAX,
    ensures
        final(steps)@ == old(steps)@ + tail_steps(config@, *p),
{
    let ghost before = steps@;
    if p.chunk {
        steps.push(Step::Advance);
    }
    push_logits(steps, config, p);
    if !p.chunk {
        steps.push(Step::Advance);
    }
    proof {
        assert(steps@ =~= before + tail_steps(config@, *p));
    }
}

fn push_logits(steps: &mut Vec<Step>, config: &Qwen35Config, p: &PassParams)
    requires
        1 <= p.rows,
        p.rows * config.embedding_length <= u32::MAX,
    ensures
        final(steps)@ == old(steps)@ + logits_steps(config@, *p),
{
    let ghost before = steps@;
    if p.want_logits {
        let hidden: u32 = config.embedding_length;
        let vocab: u32 = config.vocab_size;
        let scoped: bool = match p.profile {
            Profile::Off => false,
            _ => true,
        };
        proof {
            lemma_scaled(p.rows - 1, p.rows as int, hidden as int);
        }
        let offset: u32 = (p.rows - 1) * hidden;
        steps.push(Step::Outside);
        let norm = [
            Op::Rmsnorm {
                x: At { buf: Buf::X, offset: offset as usize },
                weight: Buf::OutputNorm,
                out: start(Buf::Xn),
                rows: 1,
                cols: hidden,
                eps: Eps::Rms,
            },
        ];
        let norm_cost = [Term::Norm { rows: 1, cols: hidden }];
        push_scope(steps, scoped, OpKind::Norm, &norm_cost, &norm);
        let head = [
            Op::Matvec {
                w: Linear::Output,
                x: start(Buf::Xn),
                out: start(Buf::Logits),
                m: vocab,
                n: hidden,
            },
        ];
        let head_cost = [Term::Project { w: Linear::Output, m: vocab, n: hidden, rows: 1 }];
        push_scope(steps, scoped, OpKind::LmHead, &head_cost, &head);
        let read = [Op::ReadLogits { vocab }];
        push_runs(steps, &read);
        proof {
            assert(norm@ =~= tail_norm_ops(config@, *p));
            assert(norm_cost@ =~= seq![Term::Norm { rows: 1, cols: hidden }]);
            assert(head@ =~= lm_head_ops(config@));
            assert(head_cost@ =~= seq![
                Term::Project { w: Linear::Output, m: vocab, n: hidden, rows: 1 },
            ]);
            assert(read@ =~= seq![Op::ReadLogits { vocab }]);
        }
    }
    proof {
        assert(steps@ =~= before + logits_steps(config@, *p));
    }
}

/// The single-token pass.
pub open spec fn token_pass(profile: Profile, n_splits: u32) -> PassParams {
    PassParams { chunk: false, rows: 1, profile, n_splits, captured: false, want_logits: true }
}

/// The pass over a chunk.
pub open spec fn chunk_pass(
    rows: u32,
    want_logits: bool,
    profile: Profile,
    captured: bool,
) -> PassParams {
    PassParams { chunk: true, rows, profile, n_splits: 1, captured, want_logits }
}

/// Why a row's routing is refused: no row waits for one, another number of
/// choices, or a choice the model does not have.
pub open spec fn row_refused(s: ModelState, idx: Seq<i32>, e: ConfigError) -> bool {
    let m = s.config.moe->0;
    if !(s.pending matches Some(q) && routes_rows(q.params)) {
        e == ConfigError::MoeNoLayer
    } else if idx.len() != m.expert_used_count {
        e == ConfigError::RoutingLen {
            found: idx.len() as usize,
            expected: m.expert_used_count as usize,
        }
    } else {
        routes(idx, m.expert_count, Err(e))
    }
}

/// Whether a waiting row's experts are planned and the pass goes on: to the
/// chunk's next row, or to the next layer.
pub open spec fn row_routed(
    s: ModelState,
    idx: Seq<i32>,
    plan: RoutedPlan,
    t: ModelState,
    seg: Segment,
) -> bool {
    let q = s.pending->0;
    let m = s.config.moe->0;
    let hidden = s.config.embedding_length;
    let planned = ModelState { experts: t.experts, ..s };
    &&& s.pending is Some && routes_rows(q.params)
    &&& idx.len() == m.expert_used_count
    &&& routes(idx, m.expert_count, Ok(plan.experts@))
    &&& is_routed_plan(
        s.config,
        m,
        q.layer as u32,
        At { buf: Buf::X, offset: (q.row * hidden) as usize },
        s.experts,
        t.experts,
        q.params.captured,
        plan,
    )
    &&& if q.row + 1 < q.params.rows {
        &&& t == ModelState {
            pending: Some(Pending { row: (q.row + 1) as u32, ..q }),
            ..planned
        }
        &&& seg.ids@.len() == 0
        &&& seg.layer == Some(q.layer)
        &&& seg.steps@ == runs(
            moe_route_ops(
                s.config,
                m,
                At { buf: Buf::X, offset: ((q.row + 1) * hidden) as usize },
            ),
        )
    } else {
        &&& t == moved(planned, q.params, q.layer + 1)
        &&& is_segment(
            planned,
            q.params,
            q.layer + 1,
            layer_close(s.config, q.params),
            Seq::empty(),
            seg,
        )
    }
}

/// Why a chunk's routing is refused: no chunk waits for one, another number
/// of choices or weights, a choice the model does not have, or more rows for
/// an expert than the group buffers hold.
pub open spec fn chunk_refused(
    s: ModelState,
    idx: Seq<i32>,
    weights: Seq<u32>,
    e: ConfigError,
) -> bool {
    let q = s.pending->0;
    let m = s.config.moe->0;
    let n = q.params.rows * m.expert_used_count;
    if !(s.pending matches Some(q) && !routes_rows(q.params)) {
        e == ConfigError::MoeNoLayer
    } else if idx.len() != n {
        e == ConfigError::RoutingLen { found: idx.len() as usize, expected: n as usize }
    } else if weights.len() != n {
        e == ConfigError::RoutingLen { found: weights.len() as usize, expected: n as usize }
    } else {
        routing_error(idx, weights, m, q.params.rows, e)
    }
}

/// Whether a waiting chunk's experts are planned and the pass goes on to the
/// next layer.
pub open spec fn chunk_routed(
    s: ModelState,
    idx: Seq<i32>,
    weights: Seq<u32>,
    plan: RoutedChunkPlan,
    t: ModelState,
    seg: Segment,
) -> bool {
    let q = s.pending->0;
    let m = s.config.moe->0;
    let n = q.params.rows * m.expert_used_count;
    let g = groups(idx, weights, m.expert_used_count as nat, m.expert_count as nat, n as nat);
    let planned = ModelState { experts: t.experts, ..s };
    &&& s.pending is Some && !routes_rows(q.params)
    &&& idx.len() == n
    &&& weights.len() == n
    &&& all_valid(idx, m.expert_count, n)
    &&& oversized(g, 0) is None
    &&& is_routed_chunk_plan(
        s.config,
        m,
        q.layer as u32,
        q.params.rows,
        g,
        s.experts,
        t.experts,
        plan,
    )
    &&& t == moved(planned, q.params, q.layer + 1)
    &&& is_segment(planned, q.params, q.layer + 1, Seq::empty(), Seq::empty(), seg)
}

/// Why a single-token pass is refused, if anything.
pub open spec fn token_error(s: ModelState) -> Option<ErrorModel> {
    if s.pos >= s.cache.max_seq {
        Some(
            ErrorModel::ContextOverflow {
                requested: (s.pos + 1) as u32,
                max_seq: s.cache.max_seq,
            },
        )
    } else {
        None
    }
}

/// Why a chunk is refused, if anything.
pub open spec fn chunk_error(s: ModelState, n: nat) -> Option<ErrorModel> {
    if n > CHUNK_CAP {
        Some(
            ErrorModel::Config(ConfigError::ChunkTooLong { chunk_len: n as usize, cap: CHUNK_CAP }),
        )
    } else if s.pos + n > s.cache.max_seq {
        Some(
            ErrorModel::ContextOverflow {
                requested: (s.pos + n) as u32,
                max_seq: s.cache.max_seq,
            },
        )
    } else {
        None
    }
}

/// A token is taken as long as its position is one of the cache's, and a
/// chunk as long as each of its tokens would be and it is not too long. A
/// refusal for want of room names the length that would have been needed.
pub proof fn law_passes_fill_the_context(s: ModelState, n: nat)
    requires
        s.pos + n < u32::MAX,
    ensures
        token_error(s) is None <==> s.pos + 1 <= s.cache.max_seq,
        token_error(s) matches Some(e) ==> e == (ErrorModel::ContextOverflow {
            requested: (s.pos + 1) as u32,
            max_seq: s.cache.max_seq,
        }),
        n <= 512 ==> (chunk_error(s, n) is None <==> (n == 0 && s.pos <= s.cache.max_seq) || (n > 0
            && token_error(ModelState { pos: (s.pos + n - 1) as u32, ..s }) is None)),
        n > 512 ==> chunk_error(s, n) == Some(
            ErrorModel::Config(ConfigError::ChunkTooLong { chunk_len: n as usize, cap: 512 }),
        ),
        n <= 512 && chunk_error(s, n) is Some ==> chunk_error(s, n) == Some(
            ErrorModel::ContextOverflow {
                requested: (s.pos + n) as u32,
                max_seq: s.cache.max_seq,
            },
        ),
{
}

impl Model {
    /// Plans from a layer on, up to the next wait or the end of the pass.
    fn go_on(&mut self, ids: Vec<u32>, steps: Vec<Step>, p: PassParams, from: usize) -> (r: Segment)
        requires
            cache_ready(old(self).expert_cache, 0),
            from <= old(self)@.layers.len(),
            pass_fits(p, old(self)@.pos as int, old(self)@.cache.max_seq),
            sizes_fit(old(self)@.config, old(self)@.cache.max_seq, CHUNK_CAP as int),
            old(self)@.cache.valid(),
            old(self)@.layers.len() == old(self)@.config.layer_kinds.len(),
            old(self)@.layers.len() == old(self)@.cache.attn.len(),
            old(self)@.layers.len() <= u32::MAX,
            forall|i: int|
                0 <= i < old(self)@.layers.len() ==> layer_fits(
                    old(self)@.config,
                    old(self)@.cache,
                    #[trigger] old(self)@.layers[i],
                    i,
                ),
            forall|i: int|
                from <= i < old(self)@.cache.attn.len() ==> layer_at(
                    old(self)@.config,
                    #[trigger] old(self)@.cache.attn[i],
                    old(self)@.cache.max_seq,
                    old(self)@.pos as int,
                ),
            forall|i: int|
                0 <= i < from ==> layer_at(
                    old(self)@.config,
                    #[trigger] old(self)@.cache.attn[i],
                    old(self)@.cache.max_seq,
                    old(self)@.pos + p.rows,
                ),
            old(self)@.config.moe matches Some(m) ==> m.expert_used_count >= 1,
            old(self)@.begun is Some,
            old(self)@.begun->0.rows == p.rows,
            begun_fits(
                old(self)@.config,
                old(self)@.cache,
                old(self)@.pos as int,
                old(self)@.begun->0,
            ),
            point_usable(
                old(self)@.config,
                old(self)@.cache,
                old(self)@.points.stable_boundary,
            ),
            point_usable(old(self)@.config, old(self)@.cache, old(self)@.points.end_of_turn),
        ensures
            final(self).wf(),
            final(self)@ == moved(old(self)@, p, from as int),
            is_segment(old(self)@, p, from as int, steps@, ids@, r),
    {
        let ghost s = self@;
        let ghost before = steps@;
        let n: usize = self.layers.len();
        let mut steps = steps;
        let layer = run_layers(
            &mut steps,
            &self.config,
            &self.layers,
            &mut self.cache,
            self.pos,
            &p,
            from,
            Ghost(s),
        );
        proof {
            lemma_moved_valid(s, p, from as int);
            lemma_waits_at(s.layers, from as int);
            lemma_fewer_rows_fit(s.config, CHUNK_CAP as int, p.rows as int);
        }
        match layer {
            Some(l) => {
                self.pending = Some(Pending { params: p, layer: l, row: 0 });
            },
            None => {
                push_tail(&mut steps, &self.config, &p);
                self.pending = None;
            },
        }
        proof {
            assert(steps@ =~= before + moved_steps(s, p, from as int));
        }
        Segment { ids, steps, layer }
    }

    /// Plans a pass from its first layer on.
    fn begin(&mut self, ids: Vec<u32>, p: PassParams) -> (r: Segment)
        requires
            old(self).wf(),
            old(self)@.begun is None,
            old(self)@.settled(),
            pass_fits(p, old(self)@.pos as int, old(self)@.cache.max_seq),
        ensures
            final(self).wf(),
            final(self)@ == moved(begun_by(old(self)@, p), p, 0),
            is_segment(
                begun_by(old(self)@, p),
                p,
                0,
                embed_steps(old(self)@.config, p),
                ids@,
                r,
            ),
    {
        let ghost s = self@;
        let hidden: u32 = self.config.embedding_length;
        let scoped: bool = match p.profile {
            Profile::Off => false,
            _ => true,
        };
        let mut steps: Vec<Step> = Vec::new();
        let upload = [Op::UploadTokens { tokens: p.rows }];
        push_runs(&mut steps, &upload);
        let cost = [Term::Embed { hidden, tokens: p.rows }];
        let embed = [Op::Embedding { tokens: p.rows, hidden }];
        push_scope(&mut steps, scoped, OpKind::Embed, &cost, &embed);
        proof {
            assert(upload@ =~= seq![Op::UploadTokens { tokens: p.rows }]);
            assert(cost@ =~= seq![Term::Embed { hidden, tokens: p.rows }]);
            assert(embed@ =~= seq![Op::Embedding { tokens: p.rows, hidden }]);
            assert(steps@ =~= embed_steps(self@.config, p));
            assert forall|i: int| 0 <= i < self@.cache.attn.len() implies layer_at(
                self@.config,
                #[trigger] self@.cache.attn[i],
                self@.cache.max_seq,
                self@.pos as int,
            ) by {
                assert(self@.layer_pos(i) == self@.pos);
            }
        }
        let misses: u64 = match &self.expert_cache {
            None => 0,
            Some(c) => c.stats().1,
        };
        self.begun = Some(Begun { rows: p.rows, attn: self.cache.planes(), misses });
        proof {
            let b = self@.begun->0;
            assert(self@ =~= begun_by(s, p));
            assert forall|i: int| 0 <= i < b.attn.len() implies cache_valid(#[trigger] b.attn[i])
                && same_but_window(b.attn[i], s.cache.attn[i]) && layer_at(
                s.config,
                b.attn[i],
                s.cache.max_seq,
                s.pos as int,
            ) by {
                assert(cache_valid(s.cache.attn[i]));
                lemma_same_as_itself(s.cache.attn[i]);
            }
        }
        self.go_on(ids, steps, p, 0)
    }

    /// Moves the position past a pass's tokens, where its steps say so: the
    /// device has then carried out everything before. Tells whether there was
    /// such a pass, planned to its end.
    pub fn finish_pass(&mut self) -> (r: bool)
        requires
            old(self).wf(),
        ensures
            final(self).wf(),
            final(self)@ == finished(old(self)@),
            r ==> final(self)@.settled(),
            r == (old(self)@.begun is Some && old(self)@.pending is None),
            r ==> final(self)@.pos == old(self)@.pos + old(self)@.begun->0.rows,
    {
        let ghost s = self@;
        match (&self.begun, self.pending) {
            (Some(b), None) => {
                let rows: u32 = b.rows;
                self.pos = self.pos + rows;
                self.begun = None;
                proof {
                    let t = self@;
                    assert forall|i: int| 0 <= i < t.cache.attn.len() implies layer_at(
                        t.config,
                        #[trigger] t.cache.attn[i],
                        t.cache.max_seq,
                        t.layer_pos(i),
                    ) by {
                        assert(s.layer_pos(i) == t.layer_pos(i));
                    }
                }
                true
            },
            _ => false,
        }
    }

    /// Gives up a pass whose device work failed, or whose routing was
    /// refused, after it had begun to append to the first `appended` layers:
    /// the position is the one before it. Windows that the pass has moved
    /// stay moved, so another pass may only begin where the model is still
    /// settled. Once the pass has given an expert a slot, none counts as
    /// cached any more: the bytes of the last ones may never have come.
    /// Tells whether there was a pass. What it has written on the device stays
    /// written; a reset, a rewind or a restored snapshot overwrites it.
    pub fn give_up_pass(&mut self, appended: usize) -> (r: bool)
        requires
            old(self).wf(),
        ensures
            final(self).wf(),
            final(self)@ == given_up(old(self)@, appended as int),
            final(self)@.pos == old(self)@.pos,
            final(self)@.pending is None,
            r == (old(self)@.begun is Some),
    {
        let ghost s = self@;
        let b = match self.begun.take() {
            None => {
                return false;
            },
            Some(b) => b,
        };
        let ghost m = s.begun->0;
        let now = self.cache.planes();
        let mut left: Vec<Option<AttnLayerCache>> = Vec::new();
        while left.len() < b.attn.len()
            invariant
                left@.len() <= b.attn@.len(),
                b.attn@.len() == now@.len(),
                m.attn == cache_views(b.attn@),
                s.cache.attn == cache_views(now@),
                forall|i: int|
                    0 <= i < left@.len() ==> cache_view(#[trigger] left@[i]) == appended_to(
                        s.cache.attn,
                        m.attn,
                        appended as int,
                    )[i],
            decreases b.attn@.len() - left@.len(),
        {
            let i: usize = left.len();
            proof {
                assert(m.attn[i as int] == cache_view(b.attn@[i as int]));
                assert(s.cache.attn[i as int] == cache_view(now@[i as int]));
            }
            left.push(
                if i < appended {
                    now[i]
                } else {
                    b.attn[i]
                },
            );
        }
        proof {
            lemma_given_up_valid(s, appended as int);
            let t = given_up(s, appended as int);
            assert(cache_views(left@) =~= t.cache.attn);
            assert forall|i: int| 0 <= i < cache_views(left@).len() implies cache_valid(
                #[trigger] cache_views(left@)[i],
            ) by {
                assert(cache_valid(t.cache.attn[i]));
            }
        }
        self.cache.put_planes(left);
        self.pending = None;
        match self.expert_cache.take() {
            None => {},
            Some(c) => {
                let mut c = c;
                if c.stats().1 != b.misses {
                    c.forget_all();
                }
                self.expert_cache = Some(c);
            },
        }
        proof {
            assert(self@ =~= given_up(s, appended as int));
        }
        true
    }

    /// Plans one token's pass. The attention kernel's splits are the
    /// caller's choice. The pass is to be finished or given up.
    pub fn forward_token(&mut self, token_id: u32, n_splits: u32) -> (r: Result<
        Segment,
        RocmlError,
    >)
        requires
            old(self).wf(),
            old(self)@.begun is None,
            old(self)@.settled(),
        ensures
            final(self).wf(),
            match r {
                Err(e) => token_error(old(self)@) == Some(e@) && final(self)@ == old(self)@,
                Ok(seg) => {
                    let p = token_pass(Profile::Off, n_splits);
                    &&& token_error(old(self)@) is None
                    &&& final(self)@ == moved(begun_by(old(self)@, p), p, 0)
                    &&& is_segment(
                        begun_by(old(self)@, p),
                        p,
                        0,
                        embed_steps(old(self)@.config, p),
                        seq![token_id],
                        seg,
                    )
                },
            },
    {
        self.forward_token_profiled(token_id, Profile::Off, n_splits)
    }

    /// Plans one token's pass, profiled by layer or by stage.
    pub fn forward_token_profiled(
        &mut self,
        token_id: u32,
        profile: Profile,
        n_splits: u32,
    ) -> (r: Result<Segment, RocmlError>)
        requires
            old(self).wf(),
            old(self)@.begun is None,
            old(self)@.settled(),
        ensures
            final(self).wf(),
            match r {
                Err(e) => token_error(old(self)@) == Some(e@) && final(self)@ == old(self)@,
                Ok(seg) => {
                    let p = token_pass(profile, n_splits);
                    &&& token_error(old(self)@) is None
                    &&& final(self)@ == moved(begun_by(old(self)@, p), p, 0)
                    &&& is_segment(
                        begun_by(old(self)@, p),
                        p,
                        0,
                        embed_steps(old(self)@.config, p),
                        seq![token_id],
                        seg,
                    )
                },
            },
    {
        let max_seq: u32 = self.cache.max_seq();
        if self.pos >= max_seq {
            return Err(RocmlError::ContextOverflow { requested: self.pos + 1, max_seq });
        }
        let ids: Vec<u32> = vec![token_id];
        proof {
            assert(ids@ =~= seq![token_id]);
        }
        let p = PassParams {
            chunk: false,
            rows: 1,
            profile,
            n_splits,
            captured: false,
            want_logits: true,
        };
        Ok(self.begin(ids, p))
    }

    /// Plans a chunk's pass; nothing for no tokens. Logits are those of the
    /// chunk's last token, when wanted. A diagnostic run records activations.
    pub fn forward_chunk(
        &mut self,
        token_ids: &[u32],
        want_logits: bool,
        profile: Profile,
        captured: bool,
    ) -> (r: Result<Option<Segment>, RocmlError>)
        requires
            old(self).wf(),
            old(self)@.begun is None,
            old(self)@.settled(),
        ensures
            final(self).wf(),
            match r {
                Err(e) => {
                    &&& chunk_error(old(self)@, token_ids@.len()) == Some(e@)
                    &&& final(self)@ == old(self)@
                },
                Ok(None) => token_ids@.len() == 0 && final(self)@ == old(self)@,
                Ok(Some(seg)) => {
                    let p = chunk_pass(token_ids@.len() as u32, want_logits, profile, captured);
                    &&& token_ids@.len() > 0
                    &&& chunk_error(old(self)@, token_ids@.len()) is None
                    &&& final(self)@ == moved(begun_by(old(self)@, p), p, 0)
                    &&& is_segment(
                        begun_by(old(self)@, p),
                        p,
                        0,
                        embed_steps(old(self)@.config, p),
                        token_ids@,
                        seg,
                    )
                },
            },
    {
        let n: usize = token_ids.len();
        if n == 0 {
            return Ok(None);
        }
        if n > CHUNK_CAP as usize {
            return Err(
                RocmlError::Config(ConfigError::ChunkTooLong { chunk_len: n, cap: CHUNK_CAP }),
            );
        }
        let rows: u32 = n as u32;
        let max_seq: u32 = self.cache.max_seq();
        if self.pos + rows > max_seq {
            return Err(RocmlError::ContextOverflow { requested: self.pos + rows, max_seq });
        }
        let ids = copy_tokens(token_ids, 0, n);
        proof {
            assert(ids@ =~= token_ids@);
        }
        let p = PassParams { chunk: true, rows, profile, n_splits: 1, captured, want_logits };
        Ok(Some(self.begin(ids, p)))
    }

    /// Plans the chosen experts of the row that waits, once its router's
    /// choice was read back, and what follows. The plan's operations come
    /// first, then the segment's steps. An error leaves the model as it was.
    pub fn routed_row(&mut self, idx_host: &[i32]) -> (r: Result<
        (RoutedPlan, Segment),
        ConfigError,
    >)
        requires
            old(self).wf(),
            old(self)@.counters_have_room(),
        ensures
            final(self).wf(),
            match r {
                Err(e) => {
                    &&& final(self)@ == old(self)@
                    &&& row_refused(old(self)@, idx_host@, e)
                },
                Ok((plan, seg)) => row_routed(old(self)@, idx_host@, plan, final(self)@, seg),
            },
    {
        let ghost s = self@;
        let q = match self.pending {
            Some(q) => q,
            None => {
                return Err(ConfigError::MoeNoLayer);
            },
        };
        if q.params.chunk && !q.params.captured {
            return Err(ConfigError::MoeNoLayer);
        }
        proof {
            assert(layer_fits(s.config, s.cache, s.layers[q.layer as int], q.layer as int));
        }
        let moe: MoeConfig = match self.config.moe {
            Some(m) => m,
            None => {
                return Err(ConfigError::MoeNoConfig);
            },
        };
        let expected: usize = moe.expert_used_count as usize;
        if idx_host.len() != expected {
            return Err(ConfigError::RoutingLen { found: idx_host.len(), expected });
        }
        let hidden: u32 = self.config.embedding_length;
        proof {
            lemma_fewer_rows_fit(s.config, CHUNK_CAP as int, q.params.rows as int);
            lemma_scaled(q.row as int, q.params.rows as int, hidden as int);
            lemma_scaled(q.row + 1, q.params.rows as int, hidden as int);
        }
        let x = At { buf: Buf::X, offset: (q.row * hidden) as usize };
        let ghost held = self.expert_cache;
        let plan = match moe_ffn_step(
            &self.config,
            &moe,
            q.layer as u32,
            idx_host,
            &mut self.expert_cache,
            x,
            q.params.captured,
        ) {
            Err(e) => {
                return Err(e);
            },
            Ok(p) => p,
        };
        let ghost t = self@;
        let mut steps: Vec<Step> = Vec::new();
        let ids: Vec<u32> = Vec::new();
        if q.row + 1 < q.params.rows {
            let next = At { buf: Buf::X, offset: ((q.row + 1) * hidden) as usize };
            let ops = moe_route_step(&self.config, &moe, next);
            push_runs(&mut steps, ops.as_slice());
            self.pending = Some(Pending { row: q.row + 1, ..q });
            proof {
                assert(steps@ =~= runs(moe_route_ops(s.config, moe, next)));
                assert forall|i: int| 0 <= i < self@.cache.attn.len() implies layer_at(
                    self@.config,
                    #[trigger] self@.cache.attn[i],
                    self@.cache.max_seq,
                    self@.layer_pos(i),
                ) by {
                    assert(s.layer_pos(i) == self@.layer_pos(i));
                }
            }
            Ok((plan, Segment { ids, steps, layer: Some(q.layer) }))
        } else {
            close_layer(&mut steps, &self.config, &q.params);
            proof {
                assert(steps@ =~= layer_close(s.config, q.params));
                assert forall|i: int| 0 <= i < t.cache.attn.len() implies layer_at(
                    t.config,
                    #[trigger] t.cache.attn[i],
                    t.cache.max_seq,
                    if i < q.layer + 1 {
                        t.pos + q.params.rows
                    } else {
                        t.pos as int
                    },
                ) by {
                    assert(layer_at(s.config, s.cache.attn[i], s.cache.max_seq, s.layer_pos(i)));
                }
            }
            let seg = self.go_on(ids, steps, q.params, q.layer + 1);
            Ok((plan, seg))
        }
    }

    /// Plans the chosen experts of the chunk that waits, once its routing was
    /// read back, and what follows. The plan's operations come first, then
    /// the segment's steps. An error leaves the model as it was.
    pub fn routed_chunk(&mut self, idx_host: &[i32], weight_host: &[u32]) -> (r: Result<
        (RoutedChunkPlan, Segment),
        ConfigError,
    >)
        requires
            old(self).wf(),
            old(self)@.counters_have_room(),
        ensures
            final(self).wf(),
            match r {
                Err(e) => {
                    &&& final(self)@ == old(self)@
                    &&& chunk_refused(old(self)@, idx_host@, weight_host@, e)
                },
                Ok((plan, seg)) => chunk_routed(
                    old(self)@,
                    idx_host@,
                    weight_host@,
                    plan,
                    final(self)@,
                    seg,
                ),
            },
    {
        let ghost s = self@;
        let q = match self.pending {
            Some(q) => q,
            None => {
                return Err(ConfigError::MoeNoLayer);
            },
        };
        if !q.params.chunk || q.params.captured {
            return Err(ConfigError::MoeNoLayer);
        }
        proof {
            assert(layer_fits(s.config, s.cache, s.layers[q.layer as int], q.layer as int));
            lemma_fewer_rows_fit(s.config, CHUNK_CAP as int, q.params.rows as int);
        }
        let moe: MoeConfig = match self.config.moe {
            Some(m) => m,
            None => {
                return Err(ConfigError::MoeNoConfig);
            },
        };
        let expected: usize = (q.params.rows * moe.expert_used_count) as usize;
        if idx_host.len() != expected {
            return Err(ConfigError::RoutingLen { found: idx_host.len(), expected });
        }
        if weight_host.len() != expected {
            return Err(ConfigError::RoutingLen { found: weight_host.len(), expected });
        }
        let plan = match moe_ffn_chunk_step(
            &self.config,
            &moe,
            q.layer as u32,
            idx_host,
            weight_host,
            &mut self.expert_cache,
            q.params.rows,
        ) {
            Err(e) => {
                return Err(e);
            },
            Ok(p) => p,
        };
        let ghost t = self@;
        let steps: Vec<Step> = Vec::new();
        let ids: Vec<u32> = Vec::new();
        proof {
            assert forall|i: int| 0 <= i < t.cache.attn.len() implies layer_at(
                t.config,
                #[trigger] t.cache.attn[i],
                t.cache.max_seq,
                if i < q.layer + 1 {
                    t.pos + q.params.rows
                } else {
                    t.pos as int
                },
            ) by {
                assert(layer_at(s.config, s.cache.attn[i], s.cache.max_seq, s.layer_pos(i)));
            }
        }
        let seg = self.go_on(ids, steps, q.params, q.layer + 1);
        Ok((plan, seg))
    }
}

} // verus!
