//! What a whole pass makes of its tokens: layer after layer, each with its own
//! weights and its own memory, between embedding and logits.

use super::ends::{
    embedding, law_logits_follow_the_last_token, law_pass_begins_with_its_tokens, logits_of,
};
use super::gdn::{held_history, tokens};
use super::layers::{law_layer_makes_every_token, takes_pass, token_out};
use super::recur::held_state;
use super::{after, caches, done, evicts_in_place, residual, Held, Machine};
use crate::qwen35::cache::effect::Memory;
use crate::qwen35::config::ConfigModel;
use crate::qwen35::forward::dims::dims_fit;
use crate::qwen35::forward::layer::{
    ffn_open, layer_close, layer_cost, layer_open, mix_steps, PassParams, Profile,
};
use crate::qwen35::forward::model::pass::{
    begun_by, chunk_pass, embed_steps, lemma_waits_at, lm_head_ops, logits_steps, moved,
    moved_steps, next_stop, opened, tail_norm_ops, tail_steps, token_pass, waits_at, Segment,
};
use crate::qwen35::forward::model::prompt::prompt_step;
use crate::qwen35::forward::model::ModelState;
use crate::qwen35::forward::plan::{
    costs, lemma_ops_concat, ops_of, record, runs, scope, scope_of, Buf, Linear, Op, OpKind, Probe, Step, Term,
};
use crate::qwen35::weights::Ffn;
use vstd::prelude::*;

verus! {

/// The kernels with every layer's weights, and with those of no layer. Token
/// ids and their embedding are the same to all.
#[verifier::reject_recursive_types(T)]
pub struct Weights<T> {
    pub ends: Machine<T>,
    pub layer: spec_fn(u32) -> Machine<T>,
}

/// The kernels that run while a layer, or none, is current.
pub open spec fn machine<T>(ws: Weights<T>, at: Option<u32>) -> Machine<T> {
    match at {
        None => ws.ends,
        Some(l) => Machine { ids: ws.ends.ids, embed: ws.ends.embed, ..(ws.layer)(l) },
    }
}

/// A buffer of which every layer has its own.
pub open spec fn of_a_layer(b: Buf) -> bool {
    caches(b) || b == Buf::ConvState || b == Buf::RecurState
}

/// The device while a pass runs: which layer is current, what it sees, and
/// what the other layers' buffers hold.
#[verifier::reject_recursive_types(T)]
pub struct World<T> {
    pub at: Option<u32>,
    pub held: Held<T>,
    pub others: spec_fn(u32) -> Memory<T>,
}

/// What a layer's own buffers hold.
pub open spec fn own<T>(w: World<T>, l: u32) -> Memory<T> {
    if w.at == Some(l) {
        w.held.mem
    } else {
        (w.others)(l)
    }
}

/// Another layer, or none, becomes current: it sees its own buffers, and the
/// rest as it was.
pub open spec fn turned_to<T>(w: World<T>, at: Option<u32>) -> World<T> {
    World {
        at,
        held: Held {
            mem: |b: Buf, i: int|
                match at {
                    Some(l) => if of_a_layer(b) {
                        own(w, l)(b, i)
                    } else {
                        (w.held.mem)(b, i)
                    },
                    None => (w.held.mem)(b, i),
                },
            ..w.held
        },
        others: |l: u32| own(w, l),
    }
}

/// What one step leaves.
pub open spec fn stepped<T>(ws: Weights<T>, w: World<T>, s: Step) -> World<T> {
    match s {
        Step::Layer { index } => turned_to(w, Some(index)),
        Step::Outside => turned_to(w, None),
        Step::Run { op } => World { held: after(machine(ws, w.at), w.held, op), ..w },
        _ => w,
    }
}

/// What steps leave.
pub open spec fn ran<T>(ws: Weights<T>, w: World<T>, steps: Seq<Step>) -> World<T>
    decreases steps.len(),
{
    if steps.len() == 0 {
        w
    } else {
        stepped(ws, ran(ws, w, steps.drop_last()), steps.last())
    }
}

proof fn lemma_ran_in_turn<T>(ws: Weights<T>, w: World<T>, a: Seq<Step>, b: Seq<Step>)
    ensures
        ran(ws, w, a + b) == ran(ws, ran(ws, w, a), b),
    decreases b.len(),
{
    if b.len() == 0 {
        assert(a + b =~= a);
    } else {
        lemma_ran_in_turn(ws, w, a, b.drop_last());
        assert((a + b).drop_last() =~= a + b.drop_last());
        assert((a + b).last() == b.last());
    }
}

/// Steps that stay with the layer that is current.
pub open spec fn stays(steps: Seq<Step>) -> bool {
    forall|i: int| 0 <= i < steps.len() ==> !((#[trigger] steps[i]) is Layer) && !(steps[i]
        is Outside)
}

/// Such steps do what their operations do.
proof fn lemma_ran_there<T>(ws: Weights<T>, w: World<T>, steps: Seq<Step>)
    requires
        stays(steps),
    ensures
        ran(ws, w, steps) == (World {
            held: done(machine(ws, w.at), w.held, ops_of(steps)),
            ..w
        }),
    decreases steps.len(),
{
    if steps.len() > 0 {
        let less = steps.drop_last();
        assert forall|i: int| 0 <= i < less.len() implies !((#[trigger] less[i]) is Layer) && !(
        less[i] is Outside) by {
            assert(less[i] == steps[i]);
        }
        lemma_ran_there(ws, w, less);
        let last = steps[steps.len() - 1];
        assert(!(last is Layer) && !(last is Outside));
        if let Step::Run { op } = last {
            let ops = ops_of(less);
            super::lemma_one_more(machine(ws, w.at), w.held, ops, op);
        }
    }
}

broadcast proof fn lemma_stays_runs(ops: Seq<Op>)
    ensures
        #[trigger] stays(runs(ops)),
{
}

broadcast proof fn lemma_stays_costs(terms: Seq<Term>)
    ensures
        #[trigger] stays(costs(terms)),
{
}

broadcast proof fn lemma_stays_scope(scoped: bool, kind: OpKind, terms: Seq<Term>, ops: Seq<Op>)
    ensures
        #[trigger] stays(scope(scoped, kind, terms, ops)),
{
}

broadcast proof fn lemma_stays_scope_of(
    scoped: bool,
    kind: OpKind,
    terms: Seq<Term>,
    body: Seq<Step>,
)
    requires
        stays(body),
    ensures
        #[trigger] stays(scope_of(scoped, kind, terms, body)),
{
}

broadcast proof fn lemma_stays_record(
    captured: bool,
    probe: Probe,
    buf: Buf,
    rows: u32,
    cols: u32,
)
    ensures
        #[trigger] stays(record(captured, probe, buf, rows, cols)),
{
}

broadcast proof fn lemma_stays_both(a: Seq<Step>, b: Seq<Step>)
    requires
        stays(a),
        stays(b),
    ensures
        #[trigger] stays(a + b),
{
    let s = a + b;
    assert forall|i: int| 0 <= i < s.len() implies !((#[trigger] s[i]) is Layer) && !(s[i]
        is Outside) by {
        if i < a.len() {
            assert(s[i] == a[i]);
        } else {
            assert(s[i] == b[i - a.len()]);
        }
    }
}

broadcast group group_stays {
    lemma_stays_runs,
    lemma_stays_costs,
    lemma_stays_scope,
    lemma_stays_scope_of,
    lemma_stays_record,
    lemma_stays_both,
}

/// A layer's steps stay with the layer.
proof fn lemma_mix_stays(s: ModelState, p: PassParams, i: int)
    ensures
        stays(mix_steps(s.config, s.layers[i], s.cache.attn[i], s.cache.max_seq, s.pos, p)),
{
    broadcast use group_stays;

}

proof fn lemma_ffn_stays(c: ConfigModel, ffn: Ffn, p: PassParams)
    ensures
        stays(ffn_open(c, ffn, p)),
{
    broadcast use group_stays;

}

/// The steps of one layer of a pass.
pub open spec fn steps_of_layer(s: ModelState, p: PassParams, i: int) -> Seq<Step> {
    layer_open(s.config, s.layers[i], s.cache.attn[i], s.cache.max_seq, s.pos, i, p)
}

/// A layer's steps turn to the layer, and do there what their operations do.
proof fn lemma_layer_ran<T>(ws: Weights<T>, w: World<T>, s: ModelState, p: PassParams, i: int)
    requires
        0 <= i <= u32::MAX,
    ensures
        ({
            let t = turned_to(w, Some(i as u32));
            ran(ws, w, steps_of_layer(s, p, i)) == (World {
                held: done(
                    machine(ws, Some(i as u32)),
                    t.held,
                    ops_of(steps_of_layer(s, p, i)),
                ),
                ..t
            })
        }),
{
    broadcast use group_stays;

    let c = s.config;
    let l = s.layers[i];
    let first = seq![Step::Layer { index: i as u32 }];
    let a = if p.spec_coarse() {
        seq![Step::Enter { kind: OpKind::Layer }] + costs(layer_cost(c, l, (s.pos + 1) as u32))
    } else {
        Seq::empty()
    };
    let b = mix_steps(c, l, s.cache.attn[i], s.cache.max_seq, s.pos, p);
    let d = ffn_open(c, l.spec_ffn(), p);
    let e = if l.spec_ffn() is Dense {
        layer_close(c, p)
    } else {
        Seq::empty()
    };
    lemma_mix_stays(s, p, i);
    lemma_ffn_stays(c, l.spec_ffn(), p);
    assert(stays(seq![Step::Enter { kind: OpKind::Layer }]));
    assert(stays(a));
    assert(stays(seq![Step::Leave]));
    assert(stays(e));
    let rest = a + b + d + e;
    assert(stays(rest));
    assert(steps_of_layer(s, p, i) =~= first + rest);
    lemma_ran_in_turn(ws, w, first, rest);
    assert(first.drop_last() =~= Seq::<Step>::empty());
    reveal_with_fuel(ran, 2);
    reveal_with_fuel(ops_of, 2);
    assert(ran(ws, w, first) == turned_to(w, Some(i as u32)));
    lemma_ran_there(ws, turned_to(w, Some(i as u32)), rest);
    lemma_ops_concat(first, rest);
    assert(ops_of(first) =~= Seq::<Op>::empty());
    assert(ops_of(first) + ops_of(rest) =~= ops_of(rest));
}

/// A pass through some layers leaves the other layers' buffers alone, and
/// each layer's as the layer left them.
proof fn lemma_own_buffers<T>(
    ws: Weights<T>,
    w: World<T>,
    s: ModelState,
    p: PassParams,
    from: int,
    to: int,
    l: u32,
)
    requires
        0 <= from <= to <= u32::MAX,
    ensures
        own(ran(ws, w, opened(s, p, from, to)), l) == (if from <= l < to {
            ran(ws, w, opened(s, p, from, l + 1)).held.mem
        } else {
            own(w, l)
        }),
        from < to ==> ran(ws, w, opened(s, p, from, to)).at == Some((to - 1) as u32),
    decreases to - from,
{
    if from < to {
        lemma_own_buffers(ws, w, s, p, from, to - 1, l);
        let before = opened(s, p, from, to - 1);
        lemma_ran_in_turn(ws, w, before, steps_of_layer(s, p, to - 1));
        lemma_layer_ran(ws, ran(ws, w, before), s, p, to - 1);
    }
}

/// The layers of a pass follow one another: layer `i` takes the tokens as the
/// layer before left them, with its own weights, its own state and its own
/// cache, which no other layer touches.
pub proof fn law_layers_follow_one_another<T>(
    ws: Weights<T>,
    w: World<T>,
    s: ModelState,
    p: PassParams,
    from: int,
    to: int,
    i: int,
    r: int,
)
    requires
        0 <= from <= i < to <= s.layers.len() <= u32::MAX,
        evicts_in_place((ws.layer)(i as u32)),
        takes_pass(s.config, s.layers[i], s.cache.attn[i], s.cache.max_seq, s.pos, p),
        0 <= r < p.rows,
    ensures
        ({
            let l = i as u32;
            let before = ran(ws, w, opened(s, p, from, i));
            let next = ran(ws, w, opened(s, p, from, i + 1));
            let end = ran(ws, w, opened(s, p, from, to));
            residual(next.held, s.config.embedding_length, r) == token_out(
                machine(ws, Some(l)),
                s.config,
                s.layers[i],
                s.cache.attn[i],
                s.cache.max_seq,
                s.pos,
                p,
                own(w, l),
                own(end, l),
                tokens(before.held, s.config),
                r,
            )
        }),
{
    let c = s.config;
    let l = i as u32;
    let k = machine(ws, Some(l));
    let before = ran(ws, w, opened(s, p, from, i));
    let t = turned_to(before, Some(l));
    lemma_ran_in_turn(ws, w, opened(s, p, from, i), steps_of_layer(s, p, i));
    lemma_layer_ran(ws, before, s, p, i);
    lemma_own_buffers(ws, w, s, p, from, i, l);
    lemma_own_buffers(ws, w, s, p, from, to, l);
    assert(evicts_in_place(k)) by {
        assert(k.other == (ws.layer)(l).other);
    }
    law_layer_makes_every_token(
        k,
        t.held,
        c,
        s.layers[i],
        s.cache.attn[i],
        s.cache.max_seq,
        s.pos,
        i,
        p,
        r,
    );
    assert forall|q: int| #[trigger] residual(t.held, c.embedding_length, q) == residual(
        before.held,
        c.embedding_length,
        q,
    ) by {
        assert(residual(t.held, c.embedding_length, q) =~= residual(
            before.held,
            c.embedding_length,
            q,
        ));
    }
    assert(tokens(t.held, c) =~= tokens(before.held, c));
    assert(held_history(t.held.mem, c) =~= held_history(own(w, l), c));
    assert(held_state(t.held.mem, c.gdn) =~= held_state(own(w, l), c.gdn));
}

/// The steps that give logits turn away from every layer.
proof fn lemma_tail_ran<T>(ws: Weights<T>, w: World<T>, c: ConfigModel, p: PassParams)
    ensures
        ran(ws, w, tail_steps(c, p)).held.logits == (if p.want_logits {
            done(ws.ends, turned_to(w, None).held, ops_of(tail_steps(c, p))).logits
        } else {
            w.held.logits
        }),
{
    broadcast use group_stays;

    let advance = seq![Step::Advance];
    assert(stays(advance));
    lemma_ran_there(ws, w, advance);
    reveal_with_fuel(ops_of, 2);
    assert(advance.drop_last() =~= Seq::<Step>::empty());
    assert(ops_of(advance) =~= Seq::<Op>::empty());
    let logits = logits_steps(c, p);
    lemma_ran_in_turn(ws, w, advance, logits);
    lemma_ran_in_turn(ws, w, logits, advance);
    lemma_ran_there(ws, ran(ws, w, logits), advance);
    lemma_ops_concat(advance, logits);
    lemma_ops_concat(logits, advance);
    assert(ops_of(advance) + ops_of(logits) =~= ops_of(logits));
    assert(ops_of(logits) + ops_of(advance) =~= ops_of(logits));
    if p.want_logits {
        let outside = seq![Step::Outside];
        let rest = logits.skip(1);
        assert(logits[0] == Step::Outside);
        assert(logits =~= outside + rest);
        lemma_ran_in_turn(ws, w, outside, rest);
        lemma_ops_concat(outside, rest);
        reveal_with_fuel(ran, 2);
        assert(outside.drop_last() =~= Seq::<Step>::empty());
        assert(ops_of(outside) =~= Seq::<Op>::empty());
        assert(ops_of(outside) + ops_of(rest) =~= ops_of(rest));
        assert(ran(ws, w, outside) == turned_to(w, None));
        let scoped = p.profile != Profile::Off;
        let norm = scope(
            scoped,
            OpKind::Norm,
            seq![Term::Norm { rows: 1, cols: c.embedding_length }],
            tail_norm_ops(c, p),
        );
        let head = scope(
            scoped,
            OpKind::LmHead,
            seq![
                Term::Project { w: Linear::Output, m: c.vocab_size, n: c.embedding_length, rows: 1 },
            ],
            lm_head_ops(c),
        );
        let read = runs(seq![Op::ReadLogits { vocab: c.vocab_size }]);
        assert(rest =~= norm + head + read);
        lemma_ran_there(ws, turned_to(w, None), rest);
    }
}

/// The logits of a pass through a model without experts: its tokens are
/// embedded, the layers follow one another over all of them, and the logits
/// are those that follow the last token after the last layer.
pub proof fn law_pass_gives_the_logits_of_its_last_token<T>(
    ws: Weights<T>,
    w: World<T>,
    s: ModelState,
    p: PassParams,
)
    requires
        dims_fit(s.config, p.rows as int),
        1 <= p.rows,
        p.want_logits,
        forall|i: int|
            0 <= i < s.layers.len() ==> (#[trigger] s.layers[i]).spec_ffn() is Dense,
    ensures
        ({
            let c = s.config;
            let embedded = ran(ws, w, embed_steps(c, p));
            let through = ran(ws, embedded, opened(s, p, 0, s.layers.len() as int));
            let end = ran(ws, w, embed_steps(c, p) + moved_steps(s, p, 0));
            &&& forall|r: int|
                0 <= r < p.rows ==> #[trigger] residual(embedded.held, c.embedding_length, r)
                    == embedding(ws.ends, c, ws.ends.ids[r])
            &&& end.held.logits == logits_of(
                ws.ends,
                c,
                residual(through.held, c.embedding_length, p.rows - 1),
            )
        }),
{
    broadcast use group_stays;

    let c = s.config;
    let n = s.layers.len() as int;
    let first = embed_steps(c, p);
    assert(stays(first));
    lemma_ran_there(ws, w, first);
    let embedded = ran(ws, w, first);
    let k = machine(ws, w.at);
    assert forall|r: int| 0 <= r < p.rows implies #[trigger] residual(
        embedded.held,
        c.embedding_length,
        r,
    ) == embedding(ws.ends, c, ws.ends.ids[r]) by {
        law_pass_begins_with_its_tokens(k, w.held, c, p, r);
        assert(embedding(k, c, k.ids[r]) =~= embedding(ws.ends, c, ws.ends.ids[r]));
    }
    lemma_waits_at(s.layers, 0);
    if let Some(i) = waits_at(s.layers, 0) {
        assert(s.layers[i].spec_ffn() is Dense);
    }
    assert(next_stop(s.layers, 0) == n);
    lemma_ran_in_turn(ws, w, first, moved_steps(s, p, 0));
    lemma_ran_in_turn(ws, embedded, opened(s, p, 0, n), tail_steps(c, p));
    let through = ran(ws, embedded, opened(s, p, 0, n));
    lemma_tail_ran(ws, through, c, p);
    let t = turned_to(through, None);
    law_logits_follow_the_last_token(ws.ends, t.held, c, p, p.rows - 1);
    assert(residual(t.held, c.embedding_length, p.rows - 1) =~= residual(
        through.held,
        c.embedding_length,
        p.rows - 1,
    ));
}

/// A token's pass through a model without experts gives the logits of that
/// token.
pub proof fn law_token_gets_its_logits<T>(
    ws: Weights<T>,
    w: World<T>,
    s: ModelState,
    profile: Profile,
    n_splits: u32,
)
    requires
        dims_fit(s.config, 1),
        forall|i: int|
            0 <= i < s.layers.len() ==> (#[trigger] s.layers[i]).spec_ffn() is Dense,
    ensures
        ({
            let p = token_pass(profile, n_splits);
            let c = s.config;
            let embedded = ran(ws, w, embed_steps(c, p));
            let through = ran(ws, embedded, opened(s, p, 0, s.layers.len() as int));
            let end = ran(ws, w, embed_steps(c, p) + moved_steps(s, p, 0));
            &&& residual(embedded.held, c.embedding_length, 0) == embedding(
                ws.ends,
                c,
                ws.ends.ids[0],
            )
            &&& end.held.logits == logits_of(
                ws.ends,
                c,
                residual(through.held, c.embedding_length, 0),
            )
        }),
{
    law_pass_gives_the_logits_of_its_last_token(ws, w, s, token_pass(profile, n_splits));
}

/// A chunk's pass takes every token of the chunk, and gives the logits of the
/// last one exactly if they are wanted.
pub proof fn law_chunk_gets_its_last_logits<T>(
    ws: Weights<T>,
    w: World<T>,
    s: ModelState,
    ids: Seq<T>,
    want_logits: bool,
    profile: Profile,
    captured: bool,
)
    requires
        0 < ids.len() <= u32::MAX,
        dims_fit(s.config, ids.len() as int),
        ws.ends.ids == ids,
        forall|i: int|
            0 <= i < s.layers.len() ==> (#[trigger] s.layers[i]).spec_ffn() is Dense,
    ensures
        ({
            let p = chunk_pass(ids.len() as u32, want_logits, profile, captured);
            let c = s.config;
            let embedded = ran(ws, w, embed_steps(c, p));
            let through = ran(ws, embedded, opened(s, p, 0, s.layers.len() as int));
            let end = ran(ws, w, embed_steps(c, p) + moved_steps(s, p, 0));
            &&& forall|r: int|
                0 <= r < ids.len() ==> #[trigger] residual(embedded.held, c.embedding_length, r)
                    == embedding(ws.ends, c, ids[r])
            &&& end.held.logits == (if want_logits {
                logits_of(
                    ws.ends,
                    c,
                    residual(through.held, c.embedding_length, ids.len() - 1),
                )
            } else {
                through.held.logits
            })
        }),
{
    let p = chunk_pass(ids.len() as u32, want_logits, profile, captured);
    let c = s.config;
    let wanted = chunk_pass(ids.len() as u32, true, profile, captured);
    if want_logits {
        law_pass_gives_the_logits_of_its_last_token(ws, w, s, p);
    } else {
        law_pass_gives_the_logits_of_its_last_token(ws, w, s, wanted);
        assert(embed_steps(c, p) =~= embed_steps(c, wanted));
        let n = s.layers.len() as int;
        lemma_waits_at(s.layers, 0);
        if let Some(i) = waits_at(s.layers, 0) {
            assert(s.layers[i].spec_ffn() is Dense);
        }
        let embedded = ran(ws, w, embed_steps(c, p));
        lemma_ran_in_turn(ws, w, embed_steps(c, p), moved_steps(s, p, 0));
        lemma_ran_in_turn(ws, embedded, opened(s, p, 0, n), tail_steps(c, p));
        lemma_tail_ran(ws, ran(ws, embedded, opened(s, p, 0, n)), c, p);
    }
}

/// A prompt goes through a model without experts chunk by chunk: each chunk
/// takes the prompt's own tokens from where the last one ended, and only the
/// chunk that ends the prompt gives logits, those of the prompt's last token.
pub proof fn law_prompt_gets_its_last_logits<T>(
    ws: Weights<T>,
    w: World<T>,
    s: ModelState,
    t: ModelState,
    ids: Seq<u32>,
    from: int,
    profile: Profile,
    capture: bool,
    seg: Segment,
    end: usize,
    token: spec_fn(u32) -> T,
)
    requires
        prompt_step(s, t, ids, from, profile, capture, Ok(Some((seg, end)))),
        0 <= from,
        dims_fit(s.config, end - from),
        ws.ends.ids == seg.ids@.map_values(token),
        forall|i: int|
            0 <= i < s.layers.len() ==> (#[trigger] s.layers[i]).spec_ffn() is Dense,
    ensures
        from < end <= ids.len(),
        ({
            let c = s.config;
            let rows = end - from;
            let last = end == ids.len();
            let p = chunk_pass(rows as u32, last, profile, capture && last);
            let embedded = ran(ws, w, embed_steps(c, p));
            let through = ran(ws, embedded, opened(s, p, 0, s.layers.len() as int));
            &&& forall|r: int|
                0 <= r < rows ==> #[trigger] residual(embedded.held, c.embedding_length, r)
                    == embedding(ws.ends, c, token(ids[from + r]))
            &&& ran(ws, w, seg.steps@).held.logits == (if last {
                logits_of(ws.ends, c, residual(through.held, c.embedding_length, rows - 1))
            } else {
                through.held.logits
            })
        }),
{
    let rows = end - from;
    let last = end == ids.len();
    let p = chunk_pass(rows as u32, last, profile, capture && last);
    let chunk = ids.subrange(from, end as int);
    assert(ws.ends.ids =~= chunk.map_values(token));
    let b = begun_by(s, p);
    law_chunk_gets_its_last_logits(ws, w, b, ws.ends.ids, last, profile, capture && last);
    lemma_begun_opens(s, b, p, s.layers.len() as int);
    let embedded = ran(ws, w, embed_steps(s.config, p));
    assert forall|r: int| 0 <= r < rows implies #[trigger] residual(
        embedded.held,
        s.config.embedding_length,
        r,
    ) == embedding(ws.ends, s.config, token(ids[from + r])) by {
        assert(ws.ends.ids[r] == token(ids[from + r]));
    }
}

/// That a pass has begun changes nothing about its steps.
proof fn lemma_begun_opens(s: ModelState, b: ModelState, p: PassParams, to: int)
    requires
        b.config == s.config,
        b.layers == s.layers,
        b.cache == s.cache,
        b.pos == s.pos,
    ensures
        opened(b, p, 0, to) == opened(s, p, 0, to),
    decreases to,
{
    if to > 0 {
        lemma_begun_opens(s, b, p, to - 1);
    }
}

/// The layers that steps turn to, in order.
pub open spec fn visited(steps: Seq<Step>) -> Seq<u32>
    decreases steps.len(),
{
    if steps.len() == 0 {
        Seq::empty()
    } else {
        match steps.last() {
            Step::Layer { index } => visited(steps.drop_last()).push(index),
            _ => visited(steps.drop_last()),
        }
    }
}

pub proof fn lemma_visited_in_turn(a: Seq<Step>, b: Seq<Step>)
    ensures
        visited(a + b) == visited(a) + visited(b),
    decreases b.len(),
{
    if b.len() == 0 {
        assert(a + b =~= a);
        assert(visited(a) + visited(b) =~= visited(a));
    } else {
        lemma_visited_in_turn(a, b.drop_last());
        assert((a + b).drop_last() =~= a + b.drop_last());
        assert((a + b).last() == b.last());
        if let Step::Layer { index } = b.last() {
            assert(visited(a) + visited(b.drop_last()).push(index) =~= (visited(a) + visited(
                b.drop_last(),
            )).push(index));
        }
    }
}

pub proof fn lemma_stays_visits_none(steps: Seq<Step>)
    requires
        forall|i: int| 0 <= i < steps.len() ==> !((#[trigger] steps[i]) is Layer),
    ensures
        visited(steps) == Seq::<u32>::empty(),
    decreases steps.len(),
{
    if steps.len() > 0 {
        let less = steps.drop_last();
        assert forall|i: int| 0 <= i < less.len() implies !((#[trigger] less[i]) is Layer) by {
            assert(less[i] == steps[i]);
        }
        lemma_stays_visits_none(less);
        assert(!(steps[steps.len() - 1] is Layer));
    }
}

proof fn lemma_layer_visits(s: ModelState, p: PassParams, i: int)
    ensures
        visited(steps_of_layer(s, p, i)) == seq![i as u32],
{
    broadcast use group_stays;

    let c = s.config;
    let l = s.layers[i];
    let first = seq![Step::Layer { index: i as u32 }];
    let a = if p.spec_coarse() {
        seq![Step::Enter { kind: OpKind::Layer }] + costs(layer_cost(c, l, (s.pos + 1) as u32))
    } else {
        Seq::empty()
    };
    let b = mix_steps(c, l, s.cache.attn[i], s.cache.max_seq, s.pos, p);
    let d = ffn_open(c, l.spec_ffn(), p);
    let e = if l.spec_ffn() is Dense {
        layer_close(c, p)
    } else {
        Seq::empty()
    };
    lemma_mix_stays(s, p, i);
    lemma_ffn_stays(c, l.spec_ffn(), p);
    assert(stays(seq![Step::Enter { kind: OpKind::Layer }]));
    assert(stays(a));
    assert(stays(seq![Step::Leave]));
    assert(stays(e));
    let rest = a + b + d + e;
    assert(stays(rest));
    assert(steps_of_layer(s, p, i) =~= first + rest);
    lemma_visited_in_turn(first, rest);
    lemma_stays_visits_none(rest);
    assert(first.drop_last() =~= Seq::<Step>::empty());
    reveal_with_fuel(visited, 2);
    assert(visited(first) + visited(rest) =~= seq![i as u32]);
}

proof fn lemma_opened_visits(s: ModelState, p: PassParams, from: int, to: int)
    requires
        0 <= from <= to <= u32::MAX,
    ensures
        visited(opened(s, p, from, to)) == Seq::new((to - from) as nat, |j: int| (from + j) as u32),
    decreases to - from,
{
    if from < to {
        lemma_opened_visits(s, p, from, to - 1);
        lemma_layer_visits(s, p, to - 1);
        lemma_visited_in_turn(opened(s, p, from, to - 1), steps_of_layer(s, p, to - 1));
    }
    assert(visited(opened(s, p, from, to)) =~= Seq::new(
        (to - from) as nat,
        |j: int| (from + j) as u32,
    ));
}

/// The end of a pass turns to no layer.
proof fn lemma_tail_visits(c: ConfigModel, p: PassParams)
    ensures
        visited(tail_steps(c, p)) == Seq::<u32>::empty(),
{
    let t = tail_steps(c, p);
    assert forall|i: int| 0 <= i < t.len() implies !((#[trigger] t[i]) is Layer) by {}
    lemma_stays_visits_none(t);
}

/// Where a pass stands: at the layer it waits at, or past the last one.
pub open spec fn reached(s: ModelState) -> int {
    match s.pending {
        Some(q) => q.layer + 1,
        None => s.layers.len() as int,
    }
}

/// These steps turn to the layers from one on, in order and none twice, up
/// to where the model then stands; and a pass stops at a mixture of experts
/// and nowhere else.
pub open spec fn goes_on(from: int, steps: Seq<Step>, t: ModelState) -> bool {
    let v = visited(steps);
    &&& from + v.len() == reached(t)
    &&& forall|j: int| 0 <= j < v.len() ==> #[trigger] v[j] == from + j
    &&& forall|j: int|
        from <= j < reached(t) ==> ((#[trigger] t.layers[j]).spec_ffn() is Moe <==> t.pending
            is Some && j == reached(t) - 1)
}

/// A pass goes through the layers in order, each once, and waits at every
/// mixture of experts.
pub proof fn law_pass_goes_through_every_layer(s: ModelState, p: PassParams, from: int)
    requires
        0 <= from <= s.layers.len() <= u32::MAX,
    ensures
        goes_on(from, moved_steps(s, p, from), moved(s, p, from)),
{
    let stop = next_stop(s.layers, from);
    lemma_waits_at(s.layers, from);
    lemma_opened_visits(s, p, from, stop);
    lemma_tail_visits(s.config, p);
    let end = if waits_at(s.layers, from) is None {
        tail_steps(s.config, p)
    } else {
        Seq::empty()
    };
    lemma_visited_in_turn(opened(s, p, from, stop), end);
    assert(visited(moved_steps(s, p, from)) =~= visited(opened(s, p, from, stop)));
}

} // verus!
