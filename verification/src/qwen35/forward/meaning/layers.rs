//! What one layer makes of the tokens of a pass.

use super::attention::{
    law_chunk_attends_every_row, law_token_attends, lemma_keeps_all, lemma_same_planes, mixed_in,
};
use super::ffn::{fed_forward, law_chunk_feeds_every_row_forward, law_token_is_fed_forward};
use super::gdn::{convolved, decays, held_history, out_gate, strengths, tokens};
use super::mixed::{
    cache_of, law_chunk_attends_every_row_of_a_mixed_cache, law_token_attends_to_a_mixed_cache,
    lemma_same_cache,
};
use super::recur::{
    consistent, held_state, law_chunk_is_read_in, law_token_is_read_in, part, read_in, readout_of,
    recur_inputs, recur_shape, rows_of,
};
use super::{
    caches, changes, dense_view, done, evicts_in_place, lemma_in_turn, residual, row, CacheView,
    Held, Machine,
};
use crate::math::lemma_ceil_div;
use crate::qwen35::cache::effect::Memory;
use crate::qwen35::cache::hybrid::AttnCacheModel;
use crate::qwen35::cache::layout::appended_each;
use crate::qwen35::config::ConfigModel;
use crate::qwen35::forward::ffn::{ffn_chunk_ops, ffn_ops, lemma_ffn_chunk_ops, lemma_ffn_ops};
use crate::qwen35::forward::gdn_chunkwise::{tile_count, tile_len, tile_start, GDN_RECUR_TILE};
use crate::qwen35::forward::layer::{
    ffn_open, layer_at, layer_open, lemma_open_parts, mix_steps, sizes_fit, PassParams,
};
use crate::qwen35::forward::moe::moe_route_ops;
use crate::qwen35::forward::moe_chunk::chunk_route_ops;
use crate::qwen35::forward::plan::{
    lemma_ops_concat, lemma_ops_record, lemma_ops_runs, ops_of, record, runs, start, Buf, Op, Probe,
};
use crate::qwen35::weights::{Ffn, LayerWeights};
use vstd::prelude::*;

verus! {

/// A layer's cache after a pass has been through it.
pub open spec fn view_after<T>(
    a: AttnCacheModel,
    max_seq: u32,
    pos: u32,
    rows: u32,
    mem: Memory<T>,
) -> CacheView<T> {
    match a {
        AttnCacheModel::Dense(dtype) => dense_view(mem, dtype, max_seq),
        AttnCacheModel::Mixed(m) => cache_of(
            mem,
            m,
            appended_each(m.layout, pos as int, rows as nat).window_base,
        ),
    }
}

/// The readout of one of a pass's tokens in a linear-attention layer, from
/// the state and history the layer had before the pass.
pub open spec fn readout<T>(
    k: Machine<T>,
    c: ConfigModel,
    p: PassParams,
    before: Memory<T>,
    xs: spec_fn(int) -> Seq<T>,
    r: int,
) -> Seq<T> {
    let g = c.gdn;
    let v = g.value_dim as int;
    let history = held_history(before, c);
    let state = held_state(before, g);
    if p.chunk {
        let t = r / (GDN_RECUR_TILE as int);
        let tile = readout_of(k, g, state, rows_of(k, c, history, xs), p.rows as int, t);
        part(tile, r % (GDN_RECUR_TILE as int) * v, v)
    } else {
        let inputs = recur_inputs(
            k,
            g,
            state,
            convolved(k, c, history, xs, 0),
            strengths(k, c, xs(0)),
            decays(k, c, xs(0)),
        );
        Seq::new(v as nat, |i: int| (k.recur_out)(recur_shape(g), inputs, i))
    }
}

/// One of a pass's tokens after the attention part of a layer: of a linear
/// layer what its state reads out, of the others its attention over what the
/// layer has cached by then.
pub open spec fn token_mixed<T>(
    k: Machine<T>,
    c: ConfigModel,
    w: LayerWeights,
    a: Option<AttnCacheModel>,
    max_seq: u32,
    pos: u32,
    p: PassParams,
    before: Memory<T>,
    now: Memory<T>,
    xs: spec_fn(int) -> Seq<T>,
    r: int,
) -> Seq<T> {
    match w {
        LayerWeights::Gdn(_) => read_in(
            k,
            c,
            out_gate(k, c, xs(r)),
            readout(k, c, p, before, xs, r),
            xs(r),
        ),
        LayerWeights::Attention(x) => mixed_in(
            k,
            c,
            x.has_output_gate,
            view_after(a->0, max_seq, pos, p.rows, now),
            pos + r,
            xs(r),
        ),
    }
}

/// One of a pass's tokens after a layer. What a mixture of experts adds is
/// not yet there: it waits for the router.
pub open spec fn token_out<T>(
    k: Machine<T>,
    c: ConfigModel,
    w: LayerWeights,
    a: Option<AttnCacheModel>,
    max_seq: u32,
    pos: u32,
    p: PassParams,
    before: Memory<T>,
    now: Memory<T>,
    xs: spec_fn(int) -> Seq<T>,
    r: int,
) -> Seq<T> {
    let y = token_mixed(k, c, w, a, max_seq, pos, p, before, now, xs, r);
    match w.spec_ffn() {
        Ffn::Dense(_) => fed_forward(k, c, y),
        Ffn::Moe(_) => y,
    }
}

/// A layer and a pass fit together.
pub open spec fn takes_pass(
    c: ConfigModel,
    w: LayerWeights,
    a: Option<AttnCacheModel>,
    max_seq: u32,
    pos: u32,
    p: PassParams,
) -> bool {
    &&& sizes_fit(c, max_seq, p.rows as int)
    &&& consistent(c.gdn)
    &&& p.chunk || p.rows == 1
    &&& pos + p.rows <= max_seq
    &&& w is Attention ==> a is Some
    &&& w.spec_ffn() is Moe ==> c.moe is Some
    &&& layer_at(c, a, max_seq, pos as int)
}

/// Every row of a chunk is in a tile.
proof fn lemma_tile_of(rows: int, r: int)
    requires
        0 <= r < rows,
    ensures
        ({
            let t = r / (GDN_RECUR_TILE as int);
            &&& 0 <= t < tile_count(rows)
            &&& tile_start(t) <= r < tile_start(t) + tile_len(rows, t)
            &&& r - tile_start(t) == r % (GDN_RECUR_TILE as int)
        }),
{
    lemma_ceil_div(rows, GDN_RECUR_TILE as int);
}

/// The attention part of a layer.
proof fn lemma_token_mixed<T>(
    k: Machine<T>,
    h: Held<T>,
    c: ConfigModel,
    w: LayerWeights,
    a: Option<AttnCacheModel>,
    max_seq: u32,
    pos: u32,
    p: PassParams,
    r: int,
)
    requires
        evicts_in_place(k),
        takes_pass(c, w, a, max_seq, pos, p),
        0 <= r < p.rows,
    ensures
        ({
            let u = done(k, h, ops_of(mix_steps(c, w, a, max_seq, pos, p)));
            residual(u, c.embedding_length, r) == token_mixed(
                k,
                c,
                w,
                a,
                max_seq,
                pos,
                p,
                h.mem,
                u.mem,
                tokens(h, c),
                r,
            )
        }),
{
    let fine = p.spec_fine();
    match w {
        LayerWeights::Gdn(_) => {
            if p.chunk {
                lemma_tile_of(p.rows as int, r);
                let t = r / (GDN_RECUR_TILE as int);
                law_chunk_is_read_in(k, h, c, p.rows, fine, p.captured, t, r);
            } else {
                law_token_is_read_in(k, h, c, fine);
            }
        },
        LayerWeights::Attention(x) => {
            let gate = x.has_output_gate;
            match a->0 {
                AttnCacheModel::Dense(dtype) => {
                    if p.chunk {
                        law_chunk_attends_every_row(
                            k,
                            h,
                            c,
                            gate,
                            dtype,
                            max_seq,
                            pos,
                            p.rows,
                            fine,
                            r,
                        );
                    } else {
                        law_token_attends(k, h, c, gate, dtype, max_seq, pos, p.n_splits, fine);
                    }
                },
                AttnCacheModel::Mixed(m) => {
                    if p.chunk {
                        law_chunk_attends_every_row_of_a_mixed_cache(
                            k,
                            h,
                            c,
                            gate,
                            m,
                            max_seq,
                            pos,
                            p.rows,
                            fine,
                            r,
                        );
                    } else {
                        reveal_with_fuel(appended_each, 2);
                        law_token_attends_to_a_mixed_cache(
                            k,
                            h,
                            c,
                            gate,
                            m,
                            max_seq,
                            pos,
                            p.n_splits,
                            fine,
                        );
                    }
                },
            }
        },
    }
}

/// What a feed-forward part runs.
proof fn lemma_ffn_open_ops(c: ConfigModel, ffn: Ffn, p: PassParams)
    ensures
        ops_of(ffn_open(c, ffn, p)) == (match ffn {
            Ffn::Dense(_) => if p.chunk {
                ffn_chunk_ops(c, p.rows)
            } else {
                ffn_ops(c)
            },
            Ffn::Moe(_) => if p.chunk && !p.captured {
                chunk_route_ops(c, c.moe->0, p.rows)
            } else {
                moe_route_ops(c, c.moe->0, start(Buf::X))
            },
        }),
{
    match ffn {
        Ffn::Dense(_) => {
            lemma_ffn_ops(c, p.spec_fine());
            lemma_ffn_chunk_ops(c, p.rows, p.spec_fine(), p.captured);
        },
        Ffn::Moe(_) => {
            let m = c.moe->0;
            let route = moe_route_ops(c, m, start(Buf::X));
            lemma_ops_runs(route);
            lemma_ops_runs(chunk_route_ops(c, m, p.rows));
            lemma_ops_record(true, Probe::ResidPreFfn, Buf::X, p.rows, c.embedding_length);
            lemma_ops_concat(
                record(true, Probe::ResidPreFfn, Buf::X, p.rows, c.embedding_length),
                runs(route),
            );
            assert(Seq::<Op>::empty() + route =~= route);
        },
    }
}

/// A feed-forward part leaves the layer's cache alone, and one that only
/// routes leaves the residuals alone too.
proof fn lemma_ffn_open_changes(c: ConfigModel, ffn: Ffn, p: PassParams, b: Buf)
    requires
        caches(b) || b == Buf::X && ffn is Moe,
    ensures
        forall|i: int|
            0 <= i < ops_of(ffn_open(c, ffn, p)).len() ==> !changes(
                #[trigger] ops_of(ffn_open(c, ffn, p))[i],
                b,
            ),
{
    lemma_ffn_open_ops(c, ffn, p);
}

/// A layer makes of every token of a pass what its attention part and its
/// feed-forward part make of it, from the layer's own state and cache and the
/// tokens as they entered.
pub proof fn law_layer_makes_every_token<T>(
    k: Machine<T>,
    h: Held<T>,
    c: ConfigModel,
    w: LayerWeights,
    a: Option<AttnCacheModel>,
    max_seq: u32,
    pos: u32,
    i: int,
    p: PassParams,
    r: int,
)
    requires
        evicts_in_place(k),
        takes_pass(c, w, a, max_seq, pos, p),
        0 <= r < p.rows,
    ensures
        ({
            let u = done(k, h, ops_of(layer_open(c, w, a, max_seq, pos, i, p)));
            residual(u, c.embedding_length, r) == token_out(
                k,
                c,
                w,
                a,
                max_seq,
                pos,
                p,
                h.mem,
                u.mem,
                tokens(h, c),
                r,
            )
        }),
{
    lemma_open_parts(c, w, a, max_seq, pos, i, p);
    let ffn = w.spec_ffn();
    let mix = ops_of(mix_steps(c, w, a, max_seq, pos, p));
    let rest = ops_of(ffn_open(c, ffn, p));
    lemma_in_turn(k, h, mix, rest);
    let t = done(k, h, mix);
    let u = done(k, t, rest);
    lemma_token_mixed(k, h, c, w, a, max_seq, pos, p, r);
    assert forall|b: Buf, at: int, n: int| caches(b) implies #[trigger] row(u.mem, b, at, n)
        == row(t.mem, b, at, n) by {
        lemma_ffn_open_changes(c, ffn, p, b);
        lemma_keeps_all(k, t, rest, b, at, n);
    }
    match a {
        Some(AttnCacheModel::Dense(dtype)) => {
            lemma_same_planes(t.mem, u.mem, dtype, max_seq);
        },
        Some(AttnCacheModel::Mixed(m)) => {
            lemma_same_cache(
                t.mem,
                u.mem,
                m,
                appended_each(m.layout, pos as int, p.rows as nat).window_base,
            );
        },
        None => {},
    }
    match ffn {
        Ffn::Dense(_) => {
            if p.chunk {
                law_chunk_feeds_every_row_forward(k, t, c, p.rows, p.spec_fine(), p.captured, r);
            } else {
                law_token_is_fed_forward(k, t, c, p.spec_fine());
            }
        },
        Ffn::Moe(_) => {
            lemma_ffn_open_changes(c, ffn, p, Buf::X);
            let hidden = c.embedding_length as int;
            lemma_keeps_all(k, t, rest, Buf::X, r * hidden, hidden);
        },
    }
}

} // verus!
