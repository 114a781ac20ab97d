//! One layer of a pass: the attention part, then the feed-forward part up to
//! the point where a mixture of experts has to wait for the router's choice.

use super::attention::{
    attention_cost, attention_step, attention_step_cost, attention_steps, cache_appended,
    lemma_attention_ops,
};
use super::attention_chunk::{
    attention_chunk_step, attention_chunk_step_mixed, chunk_attend_dense_ops,
    chunk_attend_mixed_ops, chunk_steps, lemma_chunk_ops,
};
use super::dims::{dims_fit, lemma_fewer_rows_fit};
use super::ffn::{
    ffn_chunk_step, ffn_chunk_steps, ffn_cost, ffn_step, ffn_step_cost, ffn_steps,
    lemma_ffn_chunk_ops, lemma_ffn_ops,
};
use super::gdn::{gdn_cost, gdn_layer_step, gdn_layer_step_cost, gdn_steps, lemma_gdn_ops};
use super::gdn_chunk::{gdn_chunk_step, gdn_chunk_steps, lemma_gdn_chunk_ops};
use super::moe::{moe_cost, moe_ffn_step_cost, moe_route_ops, moe_route_step};
use super::moe_chunk::{chunk_route_ops, moe_chunk_route_step};
use super::plan::{
    costs, lemma_ops_concat, lemma_ops_none, ops_of, push_enter, push_leave, push_record, push_runs,
    record, runs, start, Buf, Op, OpKind, Probe, Step, Term,
};
use crate::error::ConfigError;
use crate::qwen35::cache::hybrid::{
    cache_valid, AttnCacheModel, AttnLayerCache, HybridCache, HybridModel,
};
use crate::qwen35::cache::layout::appended_each;
use crate::qwen35::cache::plane::plane_fits;
use crate::qwen35::config::{ConfigModel, LayerKind, MoeConfig, Qwen35Config};
use crate::qwen35::weights::{Ffn, LayerWeights};
use vstd::prelude::*;

verus! {

/// How finely a pass is profiled.
#[derive(Debug, Clone, Copy, PartialEq, Eq, Structural)]
pub enum Profile {
    Off,
    /// One scope a layer, for prompt tokens processed one at a time.
    Coarse,
    Fine,
}

/// What a pass over one or more tokens is.
#[derive(Debug, Clone, Copy, PartialEq, Eq, Structural)]
pub struct PassParams {
    /// Whether the chunk kernels run, instead of the one-token ones.
    pub chunk: bool,
    /// Tokens of the pass; one without the chunk kernels.
    pub rows: u32,
    pub profile: Profile,
    /// Parts the decode attention kernel splits the cached positions into.
    pub n_splits: u32,
    /// Whether activations are recorded.
    pub captured: bool,
    /// Whether the last token's logits are wanted.
    pub want_logits: bool,
}

impl PassParams {
    /// Stages have scopes of their own.
    pub open spec fn spec_fine(self) -> bool {
        self.profile == Profile::Fine || (self.chunk && self.profile == Profile::Coarse)
    }

    /// Whole layers have scopes.
    pub open spec fn spec_coarse(self) -> bool {
        !self.chunk && self.profile == Profile::Coarse
    }

    /// Stages have scopes of their own.
    pub fn fine(&self) -> (r: bool)
        ensures
            r == self.spec_fine(),
    {
        match self.profile {
            Profile::Fine => true,
            Profile::Coarse => self.chunk,
            Profile::Off => false,
        }
    }

    /// Whole layers have scopes.
    pub fn coarse(&self) -> (r: bool)
        ensures
            r == self.spec_coarse(),
    {
        match self.profile {
            Profile::Coarse => !self.chunk,
            _ => false,
        }
    }
}

/// The attention part of a layer.
pub open spec fn mix_steps(
    c: ConfigModel,
    w: LayerWeights,
    a: Option<AttnCacheModel>,
    max_seq: u32,
    pos: u32,
    p: PassParams,
) -> Seq<Step> {
    let fine = p.spec_fine();
    match w {
        LayerWeights::Gdn(_) => if p.chunk {
            gdn_chunk_steps(c, p.rows, fine, p.captured)
        } else {
            gdn_steps(c, fine)
        },
        LayerWeights::Attention(x) => if p.chunk {
            let attend = match a->0 {
                AttnCacheModel::Dense(dtype) => chunk_attend_dense_ops(
                    c,
                    dtype,
                    max_seq,
                    pos,
                    p.rows,
                ),
                AttnCacheModel::Mixed(m) => chunk_attend_mixed_ops(c, m, pos, p.rows),
            };
            chunk_steps(c, x.has_output_gate, attend, pos, p.rows, fine)
        } else {
            attention_steps(c, x.has_output_gate, a->0, max_seq, pos, p.n_splits, fine)
        },
    }
}

/// The feed-forward part of a layer, up to the router's choice. A diagnostic
/// run routes a chunk's rows one at a time.
pub open spec fn ffn_open(c: ConfigModel, ffn: Ffn, p: PassParams) -> Seq<Step> {
    match ffn {
        Ffn::Dense(_) => if p.chunk {
            ffn_chunk_steps(c, p.rows, p.spec_fine(), p.captured)
        } else {
            ffn_steps(c, p.spec_fine())
        },
        Ffn::Moe(_) => {
            let m = c.moe->0;
            if !p.chunk {
                runs(moe_route_ops(c, m, start(Buf::X)))
            } else if p.captured {
                record(true, Probe::ResidPreFfn, Buf::X, p.rows, c.embedding_length) + runs(
                    moe_route_ops(c, m, start(Buf::X)),
                )
            } else {
                runs(chunk_route_ops(c, m, p.rows))
            }
        },
    }
}

/// The cost of a whole layer's decode step.
pub open spec fn layer_cost(c: ConfigModel, w: LayerWeights, cur_len: u32) -> Seq<Term> {
    (match w {
        LayerWeights::Gdn(_) => gdn_cost(c),
        LayerWeights::Attention(x) => attention_cost(c, x.has_output_gate, cur_len),
    }) + ffn_cost_of(c, w.spec_ffn())
}

/// The cost of a feed-forward part's decode step.
pub open spec fn ffn_cost_of(c: ConfigModel, ffn: Ffn) -> Seq<Term> {
    match ffn {
        Ffn::Dense(_) => ffn_cost(c),
        Ffn::Moe(w) => match c.moe {
            Some(m) => moe_cost(c, m, w),
            None => Seq::empty(),
        },
    }
}

/// What ends a layer: its scope closes, and a diagnostic run records what the
/// layer leaves behind.
pub open spec fn layer_close(c: ConfigModel, p: PassParams) -> Seq<Step> {
    (if p.spec_coarse() {
        seq![Step::Leave]
    } else {
        Seq::empty()
    }) + record(p.chunk && p.captured, Probe::ResidPost, Buf::X, p.rows, c.embedding_length)
}

/// A layer's steps up to the router's choice, or to its end without one.
pub open spec fn layer_open(
    c: ConfigModel,
    w: LayerWeights,
    a: Option<AttnCacheModel>,
    max_seq: u32,
    pos: u32,
    i: int,
    p: PassParams,
) -> Seq<Step> {
    seq![Step::Layer { index: i as u32 }] + (if p.spec_coarse() {
        seq![Step::Enter { kind: OpKind::Layer }] + costs(layer_cost(c, w, (pos + 1) as u32))
    } else {
        Seq::empty()
    }) + mix_steps(c, w, a, max_seq, pos, p) + ffn_open(c, w.spec_ffn(), p) + (if w.spec_ffn()
        is Dense {
        layer_close(c, p)
    } else {
        Seq::empty()
    })
}

/// A layer's cache after `rows` positions were appended.
pub open spec fn layer_appended(a: Option<AttnCacheModel>, pos: int, rows: nat) -> Option<
    AttnCacheModel,
> {
    match a {
        Some(AttnCacheModel::Mixed(m)) => Some(
            AttnCacheModel::Mixed(m.with_layout(appended_each(m.layout, pos, rows))),
        ),
        _ => a,
    }
}

/// A layer's weights, state and kind belong together.
pub open spec fn layer_fits(c: ConfigModel, m: HybridModel, w: LayerWeights, i: int) -> bool {
    &&& w.is_kind(c.layer_kinds[i])
    &&& w.spec_ffn() is Moe ==> c.moe is Some
    &&& match c.layer_kinds[i] {
        LayerKind::LinearAttention => m.gdn[i] is Some && m.attn[i] is None,
        LayerKind::FullAttention => m.gdn[i] is None && m.attn[i] is Some,
    }
}

/// A layer's cache belongs to the model, and its window is somewhere in it.
pub open spec fn layer_ok(c: ConfigModel, a: Option<AttnCacheModel>, max_seq: u32) -> bool {
    match a {
        Some(AttnCacheModel::Mixed(m)) => {
            &&& m.valid()
            &&& m.n_kv_heads == c.head_count_kv
            &&& m.head_dim == c.head_dim
            &&& m.layout.window_base <= u32::MAX
            &&& max_seq <= m.layout.sink_len + m.bulk_cap
        },
        _ => true,
    }
}

/// A layer's cache is at position `pos`: that is the next one it takes.
pub open spec fn layer_at(c: ConfigModel, a: Option<AttnCacheModel>, max_seq: u32, pos: int) -> bool {
    &&& layer_ok(c, a, max_seq)
    &&& a matches Some(AttnCacheModel::Mixed(m)) ==> m.layout.is_next(pos)
}

/// After a layer took its positions, the one after them is next.
pub proof fn lemma_layer_advances(
    c: ConfigModel,
    a: Option<AttnCacheModel>,
    max_seq: u32,
    pos: int,
    rows: nat,
)
    requires
        layer_at(c, a, max_seq, pos),
        pos + rows <= max_seq,
    ensures
        layer_at(c, layer_appended(a, pos, rows), max_seq, pos + rows),
{
    match a {
        Some(AttnCacheModel::Mixed(m)) => {
            crate::qwen35::cache::layout::lemma_appended_each_next(m.layout, pos, rows);
            crate::qwen35::cache::mixed::lemma_appended_each_blocks(m, pos, rows);
        },
        _ => {},
    }
}

/// A layer's steps without their profiler marks run the same operations.
pub proof fn lemma_layer_open_ops(
    c: ConfigModel,
    w: LayerWeights,
    a: Option<AttnCacheModel>,
    max_seq: u32,
    pos: u32,
    i: int,
    p: PassParams,
)
    ensures
        ops_of(layer_open(c, w, a, max_seq, pos, i, p)) == ops_of(
            layer_open(
                c,
                w,
                a,
                max_seq,
                pos,
                i,
                (PassParams { profile: Profile::Off, ..p }),
            ),
        ),
{
    let off = PassParams { profile: Profile::Off, ..p };
    lemma_open_parts(c, w, a, max_seq, pos, i, p);
    lemma_open_parts(c, w, a, max_seq, pos, i, off);
    match w {
        LayerWeights::Gdn(_) => {
            lemma_gdn_chunk_ops(c, p.rows, p.spec_fine(), p.captured);
            lemma_gdn_chunk_ops(c, p.rows, off.spec_fine(), p.captured);
            lemma_gdn_ops(c, p.spec_fine());
            lemma_gdn_ops(c, off.spec_fine());
        },
        LayerWeights::Attention(x) => {
            let attend = match a->0 {
                AttnCacheModel::Dense(dtype) => chunk_attend_dense_ops(
                    c,
                    dtype,
                    max_seq,
                    pos,
                    p.rows,
                ),
                AttnCacheModel::Mixed(m) => chunk_attend_mixed_ops(c, m, pos, p.rows),
            };
            let gate = x.has_output_gate;
            lemma_chunk_ops(c, gate, attend, pos, p.rows, p.spec_fine());
            lemma_chunk_ops(c, gate, attend, pos, p.rows, off.spec_fine());
            lemma_attention_ops(c, gate, a->0, max_seq, pos, p.n_splits, p.spec_fine());
            lemma_attention_ops(c, gate, a->0, max_seq, pos, p.n_splits, off.spec_fine());
        },
    }
    lemma_ffn_ops(c, p.spec_fine());
    lemma_ffn_ops(c, off.spec_fine());
    lemma_ffn_chunk_ops(c, p.rows, p.spec_fine(), p.captured);
    lemma_ffn_chunk_ops(c, p.rows, off.spec_fine(), p.captured);
}

/// A layer's operations are those of its two parts.
pub proof fn lemma_open_parts(
    c: ConfigModel,
    w: LayerWeights,
    a: Option<AttnCacheModel>,
    max_seq: u32,
    pos: u32,
    i: int,
    p: PassParams,
)
    ensures
        ops_of(layer_open(c, w, a, max_seq, pos, i, p)) == ops_of(
            mix_steps(c, w, a, max_seq, pos, p),
        ) + ops_of(ffn_open(c, w.spec_ffn(), p)),
{
    let s1 = seq![Step::Layer { index: i as u32 }];
    let s2 = if p.spec_coarse() {
        seq![Step::Enter { kind: OpKind::Layer }] + costs(layer_cost(c, w, (pos + 1) as u32))
    } else {
        Seq::empty()
    };
    let s3 = mix_steps(c, w, a, max_seq, pos, p);
    let s4 = ffn_open(c, w.spec_ffn(), p);
    let s5 = if w.spec_ffn() is Dense {
        layer_close(c, p)
    } else {
        Seq::empty()
    };
    lemma_ops_none(s1);
    lemma_ops_none(s2);
    lemma_ops_none(s5);
    lemma_ops_concat(s1, s2);
    lemma_ops_concat(s1 + s2, s3);
    lemma_ops_concat(s1 + s2 + s3, s4);
    lemma_ops_concat(s1 + s2 + s3 + s4, s5);
    let none = Seq::<Op>::empty();
    assert(none + none + ops_of(s3) + ops_of(s4) + none =~= ops_of(s3) + ops_of(s4));
}

/// The sizes every pass relies on.
pub open spec fn sizes_fit(c: ConfigModel, max_seq: u32, rows: int) -> bool {
    &&& dims_fit(c, rows)
    &&& 2 * c.head_dim <= u32::MAX
    &&& 2 * c.gdn.key_dim <= usize::MAX
    &&& plane_fits(c.head_count_kv, max_seq, c.head_dim)
    &&& max_seq + rows <= u32::MAX
}

/// The first part of a feed-forward step: all of a dense one, or router and
/// shared expert of a mixture of experts. A mixture of experts needs the
/// checkpoint it reads from, its configuration and its buffers.
pub open spec fn dispatch_error(ffn: Ffn, has_checkpoint: bool, moe: Option<MoeConfig>, has_scratch: bool) -> Option<
    ConfigError,
> {
    match ffn {
        Ffn::Dense(_) => None,
        Ffn::Moe(_) => if !has_checkpoint {
            Some(ConfigError::MoeNoCheckpoint)
        } else if moe is None {
            Some(ConfigError::MoeNoConfig)
        } else if !has_scratch {
            Some(ConfigError::MoeNoScratch)
        } else {
            None
        },
    }
}

/// Plans the first part of a feed-forward step.
pub fn ffn_dispatch(
    steps: &mut Vec<Step>,
    config: &Qwen35Config,
    ffn: &Ffn,
    has_checkpoint: bool,
    has_scratch: bool,
    p: &PassParams,
) -> (r: Result<(), ConfigError>)
    requires
        dims_fit(config@, p.rows as int),
    ensures
        match r {
            Err(e) => {
                &&& dispatch_error(*ffn, has_checkpoint, config.moe, has_scratch) == Some(e)
                &&& final(steps)@ == old(steps)@
            },
            Ok(_) => {
                &&& dispatch_error(*ffn, has_checkpoint, config.moe, has_scratch) is None
                &&& final(steps)@ == old(steps)@ + ffn_open(config@, *ffn, *p)
            },
        },
{
    let ghost before = steps@;
    match ffn {
        Ffn::Dense(_) => {
            if p.chunk {
                ffn_chunk_step(steps, config, p.rows, p.fine(), p.captured);
            } else {
                ffn_step(steps, config, p.fine());
            }
            Ok(())
        },
        Ffn::Moe(_) => {
            if !has_checkpoint {
                return Err(ConfigError::MoeNoCheckpoint);
            }
            let moe = match &config.moe {
                None => {
                    return Err(ConfigError::MoeNoConfig);
                },
                Some(m) => m,
            };
            if !has_scratch {
                return Err(ConfigError::MoeNoScratch);
            }
            if !p.chunk {
                let ops = moe_route_step(config, moe, start(Buf::X));
                push_runs(steps, ops.as_slice());
            } else if p.captured {
                push_record(
                    steps,
                    true,
                    Probe::ResidPreFfn,
                    Buf::X,
                    p.rows,
                    config.embedding_length,
                );
                let ops = moe_route_step(config, moe, start(Buf::X));
                push_runs(steps, ops.as_slice());
            } else {
                let ops = moe_chunk_route_step(config, moe, p.rows);
                push_runs(steps, ops.as_slice());
            }
            proof {
                assert(steps@ =~= before + ffn_open(config@, *ffn, *p));
            }
            Ok(())
        },
    }
}

/// The cost of a feed-forward part's decode step.
pub fn ffn_cost_dispatch(config: &Qwen35Config, ffn: &Ffn) -> (r: Vec<Term>)
    ensures
        r@ == ffn_cost_of(config@, *ffn),
{
    match ffn {
        Ffn::Dense(_) => ffn_step_cost(config),
        Ffn::Moe(w) => match &config.moe {
            Some(m) => moe_ffn_step_cost(config, m, w),
            None => Vec::new(),
        },
    }
}

fn layer_step_cost(config: &Qwen35Config, w: &LayerWeights, cur_len: u32) -> (r: Vec<Term>)
    requires
        dims_fit(config@, 1),
    ensures
        r@ == layer_cost(config@, *w, cur_len),
{
    let mut terms = match w {
        LayerWeights::Gdn(_) => gdn_layer_step_cost(config),
        LayerWeights::Attention(x) => attention_step_cost(config, x.has_output_gate, cur_len),
    };
    let ffn = w.ffn();
    let mut rest = ffn_cost_dispatch(config, &ffn);
    terms.append(&mut rest);
    terms
}

fn push_mix(
    steps: &mut Vec<Step>,
    config: &Qwen35Config,
    w: &LayerWeights,
    cache: &mut HybridCache,
    i: usize,
    pos: u32,
    p: &PassParams,
)
    requires
        old(cache).wf(),
        sizes_fit(config@, old(cache)@.max_seq, p.rows as int),
        p.chunk || p.rows == 1,
        i < old(cache)@.attn.len(),
        config@.layer_kinds.len() == old(cache)@.attn.len(),
        layer_fits(config@, old(cache)@, *w, i as int),
        layer_at(config@, old(cache)@.attn[i as int], old(cache)@.max_seq, pos as int),
        pos + p.rows <= old(cache)@.max_seq,
    ensures
        final(cache).wf(),
        final(cache)@ == (HybridModel {
            attn: old(cache)@.attn.update(
                i as int,
                layer_appended(old(cache)@.attn[i as int], pos as int, p.rows as nat),
            ),
            ..old(cache)@
        }),
        final(steps)@ == old(steps)@ + mix_steps(
            config@,
            *w,
            old(cache)@.attn[i as int],
            old(cache)@.max_seq,
            pos,
            *p,
        ),
{
    let ghost m = cache@;
    let ghost before = steps@;
    let max_seq: u32 = cache.max_seq();
    let fine: bool = p.fine();
    proof {
        assert(cache_valid(m.attn[i as int]));
        lemma_fewer_rows_fit(config@, p.rows as int, 1);
    }
    match w {
        LayerWeights::Gdn(_) => {
            if p.chunk {
                gdn_chunk_step(steps, config, p.rows, fine, p.captured);
            } else {
                gdn_layer_step(steps, config, fine);
            }
            proof {
                assert(m.attn.update(i as int, m.attn[i as int]) =~= m.attn);
                assert(layer_appended(m.attn[i as int], pos as int, p.rows as nat) == m.attn[i as int]);
            }
        },
        LayerWeights::Attention(x) => {
            match cache.attn_mut(i) {
                Err(_) => {
                    proof {
                        assert(false);
                    }
                },
                Ok(c) => {
                    let ghost held = (*c)@;
                    proof {
                        assert(m.attn[i as int] == Some(held));
                        lemma_single(held, pos as int, *p);
                        lemma_layer_advances(
                            config@,
                            m.attn[i as int],
                            m.max_seq,
                            pos as int,
                            p.rows as nat,
                        );
                    }
                    if p.chunk {
                        match *c {
                            AttnLayerCache::Dense(plane) => attention_chunk_step(
                                steps,
                                config,
                                x.has_output_gate,
                                &plane,
                                max_seq,
                                pos,
                                p.rows,
                                fine,
                            ),
                            AttnLayerCache::Mixed(plane) => {
                                let mut plane = plane;
                                attention_chunk_step_mixed(
                                    steps,
                                    config,
                                    x.has_output_gate,
                                    &mut plane,
                                    max_seq,
                                    pos,
                                    p.rows,
                                    fine,
                                );
                                *c = AttnLayerCache::Mixed(plane);
                            },
                        }
                    } else {
                        attention_step(
                            steps,
                            config,
                            x.has_output_gate,
                            c,
                            max_seq,
                            pos,
                            p.n_splits,
                            fine,
                        );
                    }
                },
            }
        },
    }
    proof {
        let a = layer_appended(m.attn[i as int], pos as int, p.rows as nat);
        assert(cache@.attn =~= m.attn.update(i as int, a));
        assert forall|j: int| 0 <= j < cache@.attn.len() implies cache_valid(
            #[trigger] cache@.attn[j],
        ) by {
            lemma_layer_advances(
                config@,
                m.attn[i as int],
                m.max_seq,
                pos as int,
                p.rows as nat,
            );
            if j != i {
                assert(cache_valid(m.attn[j]));
            }
        }
    }
}

/// Appending one position is appending it once.
proof fn lemma_single(a: AttnCacheModel, pos: int, p: PassParams)
    requires
        p.rows == 1 || p.chunk,
    ensures
        p.rows == 1 ==> Some(cache_appended(a, pos)) == layer_appended(Some(a), pos, p.rows as nat),
{
    match a {
        AttnCacheModel::Mixed(m) => {
            reveal_with_fuel(appended_each, 2);
        },
        _ => {},
    }
}

/// Plans what ends a layer.
pub fn close_layer(steps: &mut Vec<Step>, config: &Qwen35Config, p: &PassParams)
    ensures
        final(steps)@ == old(steps)@ + layer_close(config@, *p),
{
    let ghost before = steps@;
    push_leave(steps, p.coarse());
    push_record(
        steps,
        p.chunk && p.captured,
        Probe::ResidPost,
        Buf::X,
        p.rows,
        config.embedding_length,
    );
    proof {
        assert(steps@ =~= before + layer_close(config@, *p));
    }
}

/// Plans a layer up to the router's choice, or to its end without one.
pub fn open_layer(
    steps: &mut Vec<Step>,
    config: &Qwen35Config,
    w: &LayerWeights,
    cache: &mut HybridCache,
    i: usize,
    pos: u32,
    p: &PassParams,
)
    requires
        old(cache).wf(),
        sizes_fit(config@, old(cache)@.max_seq, p.rows as int),
        p.chunk || p.rows == 1,
        i < old(cache)@.attn.len() <= u32::MAX,
        config@.layer_kinds.len() == old(cache)@.attn.len(),
        layer_fits(config@, old(cache)@, *w, i as int),
        layer_at(config@, old(cache)@.attn[i as int], old(cache)@.max_seq, pos as int),
        pos + p.rows <= old(cache)@.max_seq,
    ensures
        final(cache).wf(),
        final(cache)@ == (HybridModel {
            attn: old(cache)@.attn.update(
                i as int,
                layer_appended(old(cache)@.attn[i as int], pos as int, p.rows as nat),
            ),
            ..old(cache)@
        }),
        final(steps)@ == old(steps)@ + layer_open(
            config@,
            *w,
            old(cache)@.attn[i as int],
            old(cache)@.max_seq,
            pos,
            i as int,
            *p,
        ),
{
    let ghost m = cache@;
    let ghost before = steps@;
    proof {
        lemma_fewer_rows_fit(config@, p.rows as int, 1);
    }
    steps.push(Step::Layer { index: i as u32 });
    let coarse: bool = p.coarse();
    if coarse {
        let cost = layer_step_cost(config, w, pos + 1);
        push_enter(steps, true, OpKind::Layer, cost.as_slice());
    }
    let ghost entered = steps@;
    proof {
        assert(entered =~= before + (seq![Step::Layer { index: i as u32 }] + (if p.spec_coarse() {
            seq![Step::Enter { kind: OpKind::Layer }] + costs(
                layer_cost(config@, *w, (pos + 1) as u32),
            )
        } else {
            Seq::empty()
        })));
    }
    push_mix(steps, config, w, cache, i, pos, p);
    let ghost mixed = steps@;
    let ffn = w.ffn();
    let routes: bool = match &config.moe {
        None => false,
        Some(_) => true,
    };
    let dispatched = ffn_dispatch(steps, config, &ffn, routes, routes, p);
    proof {
        assert(dispatched is Ok);
    }
    let dense: bool = match ffn {
        Ffn::Dense(_) => true,
        Ffn::Moe(_) => false,
    };
    if dense {
        close_layer(steps, config, p);
    }
    proof {
        assert(steps@ =~= before + layer_open(
            config@,
            *w,
            m.attn[i as int],
            m.max_seq,
            pos,
            i as int,
            *p,
        ));
    }
}

} // verus!
