//! A mixture-of-experts feed-forward part for one token. The router and the
//! always-on shared expert come first; which experts run next is known only
//! once the router's choice has been read back.

use super::plan::{start, At, Buf, Eps, ExpertPart, Linear, Op, Term};
use crate::error::ConfigError;
use crate::qwen35::config::{ConfigModel, MoeConfig, Qwen35Config};
use crate::qwen35::moe::expert_cache::{CacheModel, ExpertCache, Placement};
use crate::qwen35::moe::overlap::{
    keys_of, overlap_steps, place_experts, reserved_all, routed_experts_overlap, OverlapStep,
};
use crate::qwen35::moe::route::{resolve_experts, routes};
use crate::qwen35::moe::tensor::MoeFfnWeights;
use vstd::prelude::*;

verus! {

/// Where an expert's three matrices are on the device.
#[derive(Debug, Clone, Copy, PartialEq, Eq, Structural)]
pub struct ExpertAt {
    pub gate: At,
    pub up: At,
    pub down: At,
}

/// The staging buffers, for experts that are copied every time.
#[verifier::allow_in_spec]
pub fn staged() -> ExpertAt
    returns
        (ExpertAt {
            gate: At { buf: Buf::StageGate, offset: 0 },
            up: At { buf: Buf::StageUp, offset: 0 },
            down: At { buf: Buf::StageDown, offset: 0 },
        }),
{
    ExpertAt {
        gate: At { buf: Buf::StageGate, offset: 0 },
        up: At { buf: Buf::StageUp, offset: 0 },
        down: At { buf: Buf::StageDown, offset: 0 },
    }
}

/// A cached expert's slot.
#[verifier::allow_in_spec]
pub fn cached(p: Placement) -> ExpertAt
    returns
        (ExpertAt {
            gate: At { buf: Buf::PoolGate, offset: p.offsets.gate },
            up: At { buf: Buf::PoolUp, offset: p.offsets.up },
            down: At { buf: Buf::PoolDown, offset: p.offsets.down },
        }),
{
    ExpertAt {
        gate: At { buf: Buf::PoolGate, offset: p.offsets.gate },
        up: At { buf: Buf::PoolUp, offset: p.offsets.up },
        down: At { buf: Buf::PoolDown, offset: p.offsets.down },
    }
}

/// Router and shared expert. The shared expert's gated output is the
/// accumulator's first write.
pub open spec fn moe_route_ops(c: ConfigModel, m: MoeConfig, x: At) -> Seq<Op> {
    let hidden = c.embedding_length;
    seq![
        Op::Rmsnorm {
            x,
            weight: Buf::PostAttentionNorm,
            out: start(Buf::MoeXn),
            rows: 1,
            cols: hidden,
            eps: Eps::Rms,
        },
        Op::GemvF32 {
            w: Buf::Router,
            x: start(Buf::MoeXn),
            out: start(Buf::MoeRouterLogits),
            m: m.expert_count,
            n: hidden,
        },
        Op::RouteTopk {
            logits: Buf::MoeRouterLogits,
            out_idx: Buf::MoeTopkIdx,
            out_weight: Buf::MoeTopkWeight,
            rows: 1,
            expert_count: m.expert_count,
            top_k: m.expert_used_count,
        },
        Op::Matvec {
            w: Linear::SharedGate,
            x: start(Buf::MoeXn),
            out: start(Buf::MoeFfnA),
            m: m.shared_ff_len,
            n: hidden,
        },
        Op::Matvec {
            w: Linear::SharedUp,
            x: start(Buf::MoeXn),
            out: start(Buf::MoeFfnB),
            m: m.shared_ff_len,
            n: hidden,
        },
        Op::SiluMul {
            gate: start(Buf::MoeFfnA),
            up: start(Buf::MoeFfnB),
            out: start(Buf::MoeFfnA),
            n: m.shared_ff_len,
        },
        Op::Matvec {
            w: Linear::SharedDown,
            x: start(Buf::MoeFfnA),
            out: start(Buf::MoeExpertOut),
            m: hidden,
            n: m.shared_ff_len,
        },
        Op::GemvF32 {
            w: Buf::SharedGate,
            x: start(Buf::MoeXn),
            out: start(Buf::MoeSharedGateLogit),
            m: 1,
            n: hidden,
        },
        Op::SharedGateWrite { n: hidden },
    ]
}

/// The copies that bring an expert's bytes to the device.
pub open spec fn upload_ops(at: ExpertAt, expert: u32) -> Seq<Op> {
    seq![
        Op::UploadExpert { part: ExpertPart::Gate, dst: at.gate, expert },
        Op::UploadExpert { part: ExpertPart::Up, dst: at.up, expert },
        Op::UploadExpert { part: ExpertPart::Down, dst: at.down, expert },
    ]
}

/// The same copies, started on the copy stream.
pub open spec fn start_upload_ops(at: ExpertAt, expert: u32) -> Seq<Op> {
    seq![
        Op::StartUploadExpert { part: ExpertPart::Gate, dst: at.gate, expert },
        Op::StartUploadExpert { part: ExpertPart::Up, dst: at.up, expert },
        Op::StartUploadExpert { part: ExpertPart::Down, dst: at.down, expert },
    ]
}

/// One expert's computation, added to the accumulator with the weight of the
/// `k`-th choice.
pub open spec fn expert_ops(c: ConfigModel, m: MoeConfig, at: ExpertAt, k: int) -> Seq<Op> {
    let hidden = c.embedding_length;
    let ff = m.expert_ff_len;
    seq![
        Op::GemvQuant {
            part: ExpertPart::Gate,
            w: at.gate,
            x: start(Buf::MoeXn),
            out: start(Buf::MoeFfnA),
            m: ff,
            n: hidden,
        },
        Op::GemvQuant {
            part: ExpertPart::Up,
            w: at.up,
            x: start(Buf::MoeXn),
            out: start(Buf::MoeFfnB),
            m: ff,
            n: hidden,
        },
        Op::SiluMul {
            gate: start(Buf::MoeFfnA),
            up: start(Buf::MoeFfnB),
            out: start(Buf::MoeFfnA),
            n: ff,
        },
        Op::GemvQuant {
            part: ExpertPart::Down,
            w: at.down,
            x: start(Buf::MoeFfnA),
            out: start(Buf::MoeExpertOut),
            m: hidden,
            n: ff,
        },
        Op::WeightedAccum {
            weight: At { buf: Buf::MoeTopkWeight, offset: k as usize },
            n: hidden,
        },
    ]
}

/// The first `k` chosen experts, each copied to the staging buffers first.
pub open spec fn staged_ops(c: ConfigModel, m: MoeConfig, experts: Seq<u32>, k: nat) -> Seq<Op>
    decreases k,
{
    if k == 0 {
        Seq::empty()
    } else {
        staged_ops(c, m, experts, (k - 1) as nat) + upload_ops(staged(), experts[k - 1])
            + expert_ops(c, m, staged(), k - 1)
    }
}

/// The first `k` chosen experts out of the cache, each copied to its slot
/// first unless it is there already.
pub open spec fn cached_ops(
    c: ConfigModel,
    m: MoeConfig,
    experts: Seq<u32>,
    p: Seq<Placement>,
    k: nat,
) -> Seq<Op>
    decreases k,
{
    if k == 0 {
        Seq::empty()
    } else {
        let at = cached(p[k - 1]);
        cached_ops(c, m, experts, p, (k - 1) as nat) + (if p[k - 1].hit {
            Seq::empty()
        } else {
            upload_ops(at, experts[k - 1])
        }) + expert_ops(c, m, at, k - 1)
    }
}

/// One step of the pipelined loop.
pub open spec fn overlap_step_ops(
    c: ConfigModel,
    m: MoeConfig,
    experts: Seq<u32>,
    p: Seq<Placement>,
    s: OverlapStep,
) -> Seq<Op> {
    match s {
        OverlapStep::CopyNow { k } => upload_ops(cached(p[k as int]), experts[k as int]),
        OverlapStep::StartCopy { k } => start_upload_ops(cached(p[k as int]), experts[k as int]),
        OverlapStep::Compute { k } => expert_ops(c, m, cached(p[k as int]), k as int),
        OverlapStep::MarkComputeDone => seq![Op::MarkComputeDone],
        OverlapStep::WaitCopy => seq![Op::WaitUpload],
    }
}

/// A run of steps of the pipelined loop.
pub open spec fn overlap_ops(
    c: ConfigModel,
    m: MoeConfig,
    experts: Seq<u32>,
    p: Seq<Placement>,
    s: Seq<OverlapStep>,
) -> Seq<Op>
    decreases s.len(),
{
    if s.len() == 0 {
        Seq::empty()
    } else {
        overlap_ops(c, m, experts, p, s.drop_last()) + overlap_step_ops(c, m, experts, p, s.last())
    }
}

/// Residual.
pub open spec fn moe_add_ops(c: ConfigModel, x: At) -> Seq<Op> {
    seq![Op::AddInplace { x, y: start(Buf::MoeAccum), n: c.embedding_length }]
}

/// What is planned once the router's choice is known.
#[derive(Debug)]
pub struct RoutedPlan {
    pub experts: Vec<u32>,
    /// Where each expert is cached; empty without a cache.
    pub placements: Vec<Placement>,
    pub ops: Vec<Op>,
}

/// Whether a plan is right for a choice, with or without a cache.
pub open spec fn is_routed_plan(
    c: ConfigModel,
    m: MoeConfig,
    layer_idx: u32,
    x: At,
    before: Option<CacheModel>,
    after: Option<CacheModel>,
    capturing: bool,
    plan: RoutedPlan,
) -> bool {
    let e = plan.experts@;
    let p = plan.placements@;
    match (before, after) {
        (None, None) => {
            &&& p.len() == 0
            &&& plan.ops@ == staged_ops(c, m, e, e.len()) + moe_add_ops(c, x)
        },
        (Some(b), Some(a)) => {
            &&& p.len() == e.len()
            &&& reserved_all(b, keys_of(layer_idx, e), p, a)
            &&& plan.ops@ == (if b.pipelines() && !capturing {
                overlap_ops(c, m, e, p, overlap_steps(p, e.len()))
            } else {
                cached_ops(c, m, e, p, e.len())
            }) + moe_add_ops(c, x)
        },
        _ => false,
    }
}

/// The bookkeeping of an optional cache.
pub open spec fn cache_model(c: Option<ExpertCache>) -> Option<CacheModel> {
    match c {
        None => None,
        Some(c) => Some(c@),
    }
}

/// The bookkeeping of an optional cache is consistent, and its counters have
/// room for `n` more.
pub open spec fn cache_ready(c: Option<ExpertCache>, n: int) -> bool {
    match c {
        None => true,
        Some(c) => c.wf() && c@.hits + n <= u64::MAX && c@.misses + n <= u64::MAX,
    }
}

fn push_upload(ops: &mut Vec<Op>, at: ExpertAt, expert: u32)
    ensures
        final(ops)@ == old(ops)@ + upload_ops(at, expert),
{
    let ghost before = ops@;
    ops.push(Op::UploadExpert { part: ExpertPart::Gate, dst: at.gate, expert });
    ops.push(Op::UploadExpert { part: ExpertPart::Up, dst: at.up, expert });
    ops.push(Op::UploadExpert { part: ExpertPart::Down, dst: at.down, expert });
    proof {
        assert(ops@ =~= before + upload_ops(at, expert));
    }
}

fn push_start_upload(ops: &mut Vec<Op>, at: ExpertAt, expert: u32)
    ensures
        final(ops)@ == old(ops)@ + start_upload_ops(at, expert),
{
    let ghost before = ops@;
    ops.push(Op::StartUploadExpert { part: ExpertPart::Gate, dst: at.gate, expert });
    ops.push(Op::StartUploadExpert { part: ExpertPart::Up, dst: at.up, expert });
    ops.push(Op::StartUploadExpert { part: ExpertPart::Down, dst: at.down, expert });
    proof {
        assert(ops@ =~= before + start_upload_ops(at, expert));
    }
}

fn push_expert(ops: &mut Vec<Op>, config: &Qwen35Config, moe: &MoeConfig, at: ExpertAt, k: usize)
    ensures
        final(ops)@ == old(ops)@ + expert_ops(config@, *moe, at, k as int),
{
    let ghost before = ops@;
    let hidden: u32 = config.embedding_length;
    let ff: u32 = moe.expert_ff_len;
    ops.push(
        Op::GemvQuant {
            part: ExpertPart::Gate,
            w: at.gate,
            x: start(Buf::MoeXn),
            out: start(Buf::MoeFfnA),
            m: ff,
            n: hidden,
        },
    );
    ops.push(
        Op::GemvQuant {
            part: ExpertPart::Up,
            w: at.up,
            x: start(Buf::MoeXn),
            out: start(Buf::MoeFfnB),
            m: ff,
            n: hidden,
        },
    );
    ops.push(
        Op::SiluMul {
            gate: start(Buf::MoeFfnA),
            up: start(Buf::MoeFfnB),
            out: start(Buf::MoeFfnA),
            n: ff,
        },
    );
    ops.push(
        Op::GemvQuant {
            part: ExpertPart::Down,
            w: at.down,
            x: start(Buf::MoeFfnA),
            out: start(Buf::MoeExpertOut),
            m: hidden,
            n: ff,
        },
    );
    ops.push(
        Op::WeightedAccum { weight: At { buf: Buf::MoeTopkWeight, offset: k }, n: hidden },
    );
    proof {
        assert(ops@ =~= before + expert_ops(config@, *moe, at, k as int));
    }
}

/// Plans router and shared expert for the token whose residual is at `x`.
pub fn moe_route_step(config: &Qwen35Config, moe: &MoeConfig, x: At) -> (r: Vec<Op>)
    ensures
        r@ == moe_route_ops(config@, *moe, x),
{
    let hidden: u32 = config.embedding_length;
    let shared: u32 = moe.shared_ff_len;
    let ops: Vec<Op> = vec![
        Op::Rmsnorm {
            x,
            weight: Buf::PostAttentionNorm,
            out: start(Buf::MoeXn),
            rows: 1,
            cols: hidden,
            eps: Eps::Rms,
        },
        Op::GemvF32 {
            w: Buf::Router,
            x: start(Buf::MoeXn),
            out: start(Buf::MoeRouterLogits),
            m: moe.expert_count,
            n: hidden,
        },
        Op::RouteTopk {
            logits: Buf::MoeRouterLogits,
            out_idx: Buf::MoeTopkIdx,
            out_weight: Buf::MoeTopkWeight,
            rows: 1,
            expert_count: moe.expert_count,
            top_k: moe.expert_used_count,
        },
        Op::Matvec {
            w: Linear::SharedGate,
            x: start(Buf::MoeXn),
            out: start(Buf::MoeFfnA),
            m: shared,
            n: hidden,
        },
        Op::Matvec {
            w: Linear::SharedUp,
            x: start(Buf::MoeXn),
            out: start(Buf::MoeFfnB),
            m: shared,
            n: hidden,
        },
        Op::SiluMul {
            gate: start(Buf::MoeFfnA),
            up: start(Buf::MoeFfnB),
            out: start(Buf::MoeFfnA),
            n: shared,
        },
        Op::Matvec {
            w: Linear::SharedDown,
            x: start(Buf::MoeFfnA),
            out: start(Buf::MoeExpertOut),
            m: hidden,
            n: shared,
        },
        Op::GemvF32 {
            w: Buf::SharedGate,
            x: start(Buf::MoeXn),
            out: start(Buf::MoeSharedGateLogit),
            m: 1,
            n: hidden,
        },
        Op::SharedGateWrite { n: hidden },
    ];
    proof {
        assert(ops@ =~= moe_route_ops(config@, *moe, x));
    }
    ops
}

fn staged_plan(config: &Qwen35Config, moe: &MoeConfig, experts: &Vec<u32>) -> (r: Vec<Op>)
    ensures
        r@ == staged_ops(config@, *moe, experts@, experts@.len()),
{
    let mut ops: Vec<Op> = Vec::new();
    let mut k: usize = 0;
    while k < experts.len()
        invariant
            k <= experts@.len(),
            ops@ == staged_ops(config@, *moe, experts@, k as nat),
        decreases experts@.len() - k,
    {
        push_upload(&mut ops, staged(), experts[k]);
        push_expert(&mut ops, config, moe, staged(), k);
        k = k + 1;
    }
    ops
}

fn cached_plan(
    config: &Qwen35Config,
    moe: &MoeConfig,
    experts: &Vec<u32>,
    placements: &Vec<Placement>,
) -> (r: Vec<Op>)
    requires
        placements@.len() == experts@.len(),
    ensures
        r@ == cached_ops(config@, *moe, experts@, placements@, experts@.len()),
{
    let mut ops: Vec<Op> = Vec::new();
    let mut k: usize = 0;
    while k < experts.len()
        invariant
            k <= experts@.len(),
            placements@.len() == experts@.len(),
            ops@ == cached_ops(config@, *moe, experts@, placements@, k as nat),
        decreases experts@.len() - k,
    {
        let ghost before = ops@;
        let at = cached(placements[k]);
        if !placements[k].hit {
            push_upload(&mut ops, at, experts[k]);
        }
        push_expert(&mut ops, config, moe, at, k);
        k = k + 1;
        proof {
            assert(ops@ =~= cached_ops(config@, *moe, experts@, placements@, k as nat));
        }
    }
    ops
}

/// Every step of the pipelined loop speaks of one of the chosen experts.
pub proof fn lemma_overlap_indices(p: Seq<Placement>, k: nat)
    requires
        k <= p.len(),
        p.len() <= usize::MAX,
    ensures
        forall|i: int|
            0 <= i < overlap_steps(p, k).len() ==> match #[trigger] overlap_steps(p, k)[i] {
                OverlapStep::CopyNow { k: j } => j < p.len(),
                OverlapStep::StartCopy { k: j } => j < p.len(),
                OverlapStep::Compute { k: j } => j < p.len(),
                _ => true,
            },
    decreases k,
{
    if k > 0 {
        lemma_overlap_indices(p, (k - 1) as nat);
        let before = overlap_steps(p, (k - 1) as nat);
        let all = overlap_steps(p, k);
        assert forall|i: int| 0 <= i < all.len() implies match #[trigger] all[i] {
            OverlapStep::CopyNow { k: j } => j < p.len(),
            OverlapStep::StartCopy { k: j } => j < p.len(),
            OverlapStep::Compute { k: j } => j < p.len(),
            _ => true,
        } by {
            if i < before.len() {
                assert(all[i] == before[i]);
            }
        }
    }
}

fn overlap_plan(
    config: &Qwen35Config,
    moe: &MoeConfig,
    experts: &Vec<u32>,
    placements: &Vec<Placement>,
    steps: &Vec<OverlapStep>,
) -> (r: Vec<Op>)
    requires
        placements@.len() == experts@.len(),
        steps@ == overlap_steps(placements@, experts@.len()),
    ensures
        r@ == overlap_ops(config@, *moe, experts@, placements@, steps@),
{
    let mut ops: Vec<Op> = Vec::new();
    let mut i: usize = 0;
    let n: usize = placements.len();
    proof {
        assert(placements@.len() == n);
        lemma_overlap_indices(placements@, experts@.len());
        assert(steps@.take(0) =~= Seq::empty());
    }
    while i < steps.len()
        invariant
            i <= steps@.len(),
            placements@.len() == experts@.len(),
            forall|j: int|
                0 <= j < steps@.len() ==> match #[trigger] steps@[j] {
                    OverlapStep::CopyNow { k } => k < experts@.len(),
                    OverlapStep::StartCopy { k } => k < experts@.len(),
                    OverlapStep::Compute { k } => k < experts@.len(),
                    _ => true,
                },
            ops@ == overlap_ops(config@, *moe, experts@, placements@, steps@.take(i as int)),
        decreases steps@.len() - i,
    {
        let ghost before = ops@;
        match steps[i] {
            OverlapStep::CopyNow { k } => {
                push_upload(&mut ops, cached(placements[k]), experts[k]);
            },
            OverlapStep::StartCopy { k } => {
                push_start_upload(&mut ops, cached(placements[k]), experts[k]);
            },
            OverlapStep::Compute { k } => {
                push_expert(&mut ops, config, moe, cached(placements[k]), k);
            },
            OverlapStep::MarkComputeDone => {
                ops.push(Op::MarkComputeDone);
            },
            OverlapStep::WaitCopy => {
                ops.push(Op::WaitUpload);
            },
        }
        i = i + 1;
        proof {
            let s = steps@.take(i as int);
            assert(s.drop_last() =~= steps@.take(i - 1));
            assert(s.last() == steps@[i - 1]);
            assert(ops@ =~= overlap_ops(config@, *moe, experts@, placements@, s));
        }
    }
    proof {
        assert(steps@.take(i as int) =~= steps@);
    }
    ops
}

/// Plans the chosen experts of the token whose residual is at `x`, once the
/// router's choice was read back. A diagnostic run does not pipeline copies.
pub fn moe_ffn_step(
    config: &Qwen35Config,
    moe: &MoeConfig,
    layer_idx: u32,
    idx_host: &[i32],
    cache: &mut Option<ExpertCache>,
    x: At,
    capturing: bool,
) -> (r: Result<RoutedPlan, ConfigError>)
    requires
        cache_ready(*old(cache), idx_host@.len() as int),
        idx_host@.len() > 0,
    ensures
        cache_ready(*final(cache), 0),
        match r {
            Err(e) => {
                &&& routes(idx_host@, moe.expert_count, Err(e))
                &&& cache_model(*final(cache)) == cache_model(*old(cache))
            },
            Ok(plan) => {
                &&& routes(idx_host@, moe.expert_count, Ok(plan.experts@))
                &&& is_routed_plan(
                    config@,
                    *moe,
                    layer_idx,
                    x,
                    cache_model(*old(cache)),
                    cache_model(*final(cache)),
                    capturing,
                    plan,
                )
            },
        },
{
    let add = Op::AddInplace { x, y: start(Buf::MoeAccum), n: config.embedding_length };
    let ghost held = cache_model(*cache);
    match cache.take() {
        None => {
            let experts = match resolve_experts(idx_host, moe.expert_count) {
                Ok(v) => v,
                Err(e) => {
                    return Err(e);
                },
            };
            let mut ops = staged_plan(config, moe, &experts);
            let ghost planned = ops@;
            ops.push(add);
            proof {
                assert(ops@ =~= planned + moe_add_ops(config@, x));
            }
            Ok(RoutedPlan { experts, placements: Vec::new(), ops })
        },
        Some(c) => {
            let mut c = c;
            let ghost b = c@;
            if c.pipelines() && !capturing {
                let routed = routed_experts_overlap(
                    &mut c,
                    layer_idx,
                    idx_host,
                    moe.expert_count,
                );
                *cache = Some(c);
                match routed {
                    Err(e) => Err(e),
                    Ok(plan) => {
                        let mut ops = overlap_plan(
                            config,
                            moe,
                            &plan.experts,
                            &plan.placements,
                            &plan.steps,
                        );
                        let ghost planned = ops@;
                        ops.push(add);
                        proof {
                            assert(ops@ =~= planned + moe_add_ops(config@, x));
                        }
                        Ok(RoutedPlan { experts: plan.experts, placements: plan.placements, ops })
                    },
                }
            } else {
                match resolve_experts(idx_host, moe.expert_count) {
                    Err(e) => {
                        *cache = Some(c);
                        Err(e)
                    },
                    Ok(experts) => {
                        let placements = place_experts(&mut c, layer_idx, &experts);
                        *cache = Some(c);
                        let mut ops = cached_plan(config, moe, &experts, &placements);
                        let ghost planned = ops@;
                        ops.push(add);
                        proof {
                            assert(ops@ =~= planned + moe_add_ops(config@, x));
                        }
                        Ok(RoutedPlan { experts, placements, ops })
                    },
                }
            }
        },
    }
}

/// The cost of the whole step, for a scope that covers a layer. Which
/// experts are chosen is not known yet, so each is priced alike.
pub open spec fn moe_cost(c: ConfigModel, m: MoeConfig, w: MoeFfnWeights) -> Seq<Term> {
    let hidden = c.embedding_length;
    seq![
        Term::Router { expert_count: m.expert_count, hidden },
        Term::Project { w: Linear::SharedGate, m: m.shared_ff_len, n: hidden, rows: 1 },
        Term::Project { w: Linear::SharedUp, m: m.shared_ff_len, n: hidden, rows: 1 },
        Term::Project { w: Linear::SharedDown, m: hidden, n: m.shared_ff_len, rows: 1 },
        Term::RoutedExperts {
            gate_bytes: w.gate.per_expert_bytes,
            down_bytes: w.down.per_expert_bytes,
            ff: m.expert_ff_len,
            hidden,
            used: m.expert_used_count,
        },
    ]
}

/// The cost of the whole step.
pub fn moe_ffn_step_cost(config: &Qwen35Config, moe: &MoeConfig, w: &MoeFfnWeights) -> (r: Vec<Term>)
    ensures
        r@ == moe_cost(config@, *moe, *w),
{
    let hidden: u32 = config.embedding_length;
    let terms: Vec<Term> = vec![
        Term::Router { expert_count: moe.expert_count, hidden },
        Term::Project { w: Linear::SharedGate, m: moe.shared_ff_len, n: hidden, rows: 1 },
        Term::Project { w: Linear::SharedUp, m: moe.shared_ff_len, n: hidden, rows: 1 },
        Term::Project { w: Linear::SharedDown, m: hidden, n: moe.shared_ff_len, rows: 1 },
        Term::RoutedExperts {
            gate_bytes: w.gate.per_expert_bytes,
            down_bytes: w.down.per_expert_bytes,
            ff: moe.expert_ff_len,
            hidden,
            used: moe.expert_used_count,
        },
    ];
    proof {
        assert(terms@ =~= moe_cost(config@, *moe, *w));
    }
    terms
}

} // verus!
