//! A mixture-of-experts feed-forward part for a whole chunk. The chunk is
//! routed at once; its assignments are grouped by expert, and every expert
//! that was chosen at all works on its rows together.

use super::dims::lemma_scaled;
use super::model::CHUNK_CAP;
use super::moe::{cache_model, cache_ready, cached, staged, ExpertAt};
use super::plan::{start, Buf, Eps, ExpertPart, Linear, Op};
use crate::error::ConfigError;
use crate::qwen35::config::{ConfigModel, MoeConfig, Qwen35Config};
use crate::qwen35::moe::expert_cache::{CacheModel, ExpertCache, Placement};
use crate::qwen35::moe::overlap::{keys_of, place_experts, reserved_all};
use crate::qwen35::moe::route::{
    all_valid, group_by_expert, group_views, groups, selection_error, Assignment,
};
use vstd::prelude::*;

verus! {

/// Router and shared expert of a chunk. The shared expert's gated output is
/// the accumulator's first write.
pub open spec fn chunk_route_ops(c: ConfigModel, m: MoeConfig, rows: u32) -> Seq<Op> {
    let hidden = c.embedding_length;
    seq![
        Op::Rmsnorm {
            x: start(Buf::X),
            weight: Buf::PostAttentionNorm,
            out: start(Buf::Xn),
            rows,
            cols: hidden,
            eps: Eps::Rms,
        },
        Op::GemmF32 {
            w: Buf::Router,
            x: start(Buf::Xn),
            out: start(Buf::ChunkRouterLogits),
            rows,
            m: m.expert_count,
            n: hidden,
        },
        Op::RouteTopk {
            logits: Buf::ChunkRouterLogits,
            out_idx: Buf::ChunkTopkIdx,
            out_weight: Buf::ChunkTopkWeight,
            rows,
            expert_count: m.expert_count,
            top_k: m.expert_used_count,
        },
        Op::Matmul {
            w: Linear::SharedGate,
            x: start(Buf::Xn),
            out: start(Buf::SharedA),
            rows,
            m: m.shared_ff_len,
            n: hidden,
        },
        Op::Matmul {
            w: Linear::SharedUp,
            x: start(Buf::Xn),
            out: start(Buf::SharedB),
            rows,
            m: m.shared_ff_len,
            n: hidden,
        },
        Op::SiluMul {
            gate: start(Buf::SharedA),
            up: start(Buf::SharedB),
            out: start(Buf::SharedA),
            n: (rows * m.shared_ff_len) as u32,
        },
        Op::Matmul {
            w: Linear::SharedDown,
            x: start(Buf::SharedA),
            out: start(Buf::SharedOut),
            rows,
            m: hidden,
            n: m.shared_ff_len,
        },
        Op::GemmF32 {
            w: Buf::SharedGate,
            x: start(Buf::Xn),
            out: start(Buf::ChunkSharedGateLogit),
            rows,
            m: 1,
            n: hidden,
        },
        Op::SharedGateWriteChunk { rows, cols: hidden },
    ]
}

/// The experts among the first `n` that any row of the chunk chose.
pub open spec fn touched(g: Seq<Seq<Assignment>>, n: nat) -> Seq<u32>
    decreases n,
{
    if n == 0 {
        Seq::empty()
    } else {
        let before = touched(g, (n - 1) as nat);
        if g[n - 1].len() > 0 {
            before.push((n - 1) as u32)
        } else {
            before
        }
    }
}

/// Brings a group's rows together.
pub open spec fn gather_ops(c: ConfigModel, expert: u32, rows: u32) -> Seq<Op> {
    seq![
        Op::UploadGroup { expert, rows },
        Op::GatherRows { rows, cols: c.embedding_length },
    ]
}

/// The copies that bring an expert's bytes to the device, unless they are
/// there already.
pub open spec fn fetch_ops(at: ExpertAt, expert: u32, present: bool) -> Seq<Op> {
    if present {
        Seq::empty()
    } else {
        super::moe::upload_ops(at, expert)
    }
}

/// An expert's work on its group, added back row by row with its weights.
pub open spec fn group_ops(c: ConfigModel, m: MoeConfig, at: ExpertAt, rows: u32) -> Seq<Op> {
    let hidden = c.embedding_length;
    let ff = m.expert_ff_len;
    seq![
        Op::GemmQuant {
            part: ExpertPart::Gate,
            w: at.gate,
            x: start(Buf::GroupX),
            out: start(Buf::GroupGate),
            rows,
            m: ff,
            n: hidden,
        },
        Op::GemmQuant {
            part: ExpertPart::Up,
            w: at.up,
            x: start(Buf::GroupX),
            out: start(Buf::GroupUp),
            rows,
            m: ff,
            n: hidden,
        },
        Op::SiluMul {
            gate: start(Buf::GroupGate),
            up: start(Buf::GroupUp),
            out: start(Buf::GroupGate),
            n: (rows * ff) as u32,
        },
        Op::GemmQuant {
            part: ExpertPart::Down,
            w: at.down,
            x: start(Buf::GroupGate),
            out: start(Buf::GroupDown),
            rows,
            m: hidden,
            n: ff,
        },
        Op::ScatterWeightedAccum { rows, cols: hidden },
    ]
}

/// Where an expert's bytes are, and whether they are there already.
pub open spec fn source(p: Option<Seq<Placement>>, k: int) -> (ExpertAt, bool) {
    match p {
        None => (staged(), false),
        Some(p) => (cached(p[k]), p[k].hit),
    }
}

/// The first `k` experts that were chosen, each with its group.
pub open spec fn routed_chunk_ops(
    c: ConfigModel,
    m: MoeConfig,
    g: Seq<Seq<Assignment>>,
    experts: Seq<u32>,
    p: Option<Seq<Placement>>,
    k: nat,
) -> Seq<Op>
    decreases k,
{
    if k == 0 {
        Seq::empty()
    } else {
        let e = experts[k - 1];
        let rows = g[e as int].len() as u32;
        let s = source(p, k - 1);
        routed_chunk_ops(c, m, g, experts, p, (k - 1) as nat) + gather_ops(c, e, rows) + fetch_ops(
            s.0,
            e,
            s.1,
        ) + group_ops(c, m, s.0, rows)
    }
}

/// Residual of a chunk.
pub open spec fn chunk_moe_add_ops(c: ConfigModel, rows: u32) -> Seq<Op> {
    seq![
        Op::AddInplace {
            x: start(Buf::X),
            y: start(Buf::ChunkAccum),
            n: (rows * c.embedding_length) as u32,
        },
    ]
}

/// What is planned once a chunk's routing is known.
#[derive(Debug)]
pub struct RoutedChunkPlan {
    /// Every expert's rows and weights, to be uploaded group by group.
    pub groups: Vec<Vec<Assignment>>,
    /// Experts that were chosen at all.
    pub experts: Vec<u32>,
    /// Where each of them is cached; empty without a cache.
    pub placements: Vec<Placement>,
    pub ops: Vec<Op>,
}

/// Whether a plan is right for a chunk's routing, with or without a cache.
pub open spec fn is_routed_chunk_plan(
    c: ConfigModel,
    m: MoeConfig,
    layer_idx: u32,
    rows: u32,
    g: Seq<Seq<Assignment>>,
    before: Option<CacheModel>,
    after: Option<CacheModel>,
    plan: RoutedChunkPlan,
) -> bool {
    let e = plan.experts@;
    let p = plan.placements@;
    &&& group_views(plan.groups@) == g
    &&& e == touched(g, g.len())
    &&& match (before, after) {
        (None, None) => {
            &&& p.len() == 0
            &&& plan.ops@ == routed_chunk_ops(c, m, g, e, None, e.len()) + chunk_moe_add_ops(
                c,
                rows,
            )
        },
        (Some(b), Some(a)) => {
            &&& p.len() == e.len()
            &&& reserved_all(b, keys_of(layer_idx, e), p, a)
            &&& plan.ops@ == routed_chunk_ops(c, m, g, e, Some(p), e.len()) + chunk_moe_add_ops(
                c,
                rows,
            )
        },
        _ => false,
    }
}

/// The first expert that was chosen more often than the group buffers hold
/// rows, if any.
pub open spec fn oversized(g: Seq<Seq<Assignment>>, i: int) -> Option<ConfigError>
    decreases g.len() - i,
{
    if i >= g.len() {
        None
    } else if g[i].len() > CHUNK_CAP {
        Some(
            ConfigError::GroupTooLarge {
                expert: i as u32,
                rows: g[i].len() as usize,
                cap: CHUNK_CAP,
            },
        )
    } else {
        oversized(g, i + 1)
    }
}

/// Plans router and shared expert of a chunk.
pub fn moe_chunk_route_step(config: &Qwen35Config, moe: &MoeConfig, chunk_len: u32) -> (r: Vec<Op>)
    requires
        chunk_len * moe.shared_ff_len <= u32::MAX,
    ensures
        r@ == chunk_route_ops(config@, *moe, chunk_len),
{
    let hidden: u32 = config.embedding_length;
    let shared: u32 = moe.shared_ff_len;
    let rows: u32 = chunk_len;
    let ops: Vec<Op> = vec![
        Op::Rmsnorm {
            x: start(Buf::X),
            weight: Buf::PostAttentionNorm,
            out: start(Buf::Xn),
            rows,
            cols: hidden,
            eps: Eps::Rms,
        },
        Op::GemmF32 {
            w: Buf::Router,
            x: start(Buf::Xn),
            out: start(Buf::ChunkRouterLogits),
            rows,
            m: moe.expert_count,
            n: hidden,
        },
        Op::RouteTopk {
            logits: Buf::ChunkRouterLogits,
            out_idx: Buf::ChunkTopkIdx,
            out_weight: Buf::ChunkTopkWeight,
            rows,
            expert_count: moe.expert_count,
            top_k: moe.expert_used_count,
        },
        Op::Matmul {
            w: Linear::SharedGate,
            x: start(Buf::Xn),
            out: start(Buf::SharedA),
            rows,
            m: shared,
            n: hidden,
        },
        Op::Matmul {
            w: Linear::SharedUp,
            x: start(Buf::Xn),
            out: start(Buf::SharedB),
            rows,
            m: shared,
            n: hidden,
        },
        Op::SiluMul {
            gate: start(Buf::SharedA),
            up: start(Buf::SharedB),
            out: start(Buf::SharedA),
            n: rows * shared,
        },
        Op::Matmul {
            w: Linear::SharedDown,
            x: start(Buf::SharedA),
            out: start(Buf::SharedOut),
            rows,
            m: hidden,
            n: shared,
        },
        Op::GemmF32 {
            w: Buf::SharedGate,
            x: start(Buf::Xn),
            out: start(Buf::ChunkSharedGateLogit),
            rows,
            m: 1,
            n: hidden,
        },
        Op::SharedGateWriteChunk { rows, cols: hidden },
    ];
    proof {
        assert(ops@ =~= chunk_route_ops(config@, *moe, chunk_len));
    }
    ops
}

/// Every chosen expert is one of the model's, with a group that is not
/// empty.
pub proof fn lemma_touched(g: Seq<Seq<Assignment>>, n: nat)
    requires
        n <= g.len(),
        g.len() <= u32::MAX,
    ensures
        touched(g, n).len() <= n,
        forall|i: int|
            0 <= i < touched(g, n).len() ==> (#[trigger] touched(g, n)[i]) < n,
    decreases n,
{
    if n > 0 {
        lemma_touched(g, (n - 1) as nat);
    }
}

fn find_touched(groups: &Vec<Vec<Assignment>>) -> (r: Result<Vec<u32>, ConfigError>)
    requires
        groups@.len() <= u32::MAX,
    ensures
        match r {
            Err(e) => oversized(group_views(groups@), 0) == Some(e),
            Ok(v) => {
                &&& oversized(group_views(groups@), 0) is None
                &&& v@ == touched(group_views(groups@), groups@.len())
                &&& forall|i: int| 0 <= i < groups@.len() ==> (#[trigger] groups@[i])@.len()
                    <= CHUNK_CAP
            },
        },
{
    let ghost g = group_views(groups@);
    let mut out: Vec<u32> = Vec::new();
    let mut e: usize = 0;
    while e < groups.len()
        invariant
            e <= groups@.len(),
            groups@.len() <= u32::MAX,
            g == group_views(groups@),
            oversized(g, 0) == oversized(g, e as int),
            out@ == touched(g, e as nat),
            forall|i: int| 0 <= i < e ==> (#[trigger] groups@[i])@.len() <= CHUNK_CAP,
        decreases groups@.len() - e,
    {
        let rows: usize = groups[e].len();
        proof {
            assert(g[e as int] == groups@[e as int]@);
        }
        if rows > CHUNK_CAP as usize {
            return Err(ConfigError::GroupTooLarge { expert: e as u32, rows, cap: CHUNK_CAP });
        }
        if rows > 0 {
            out.push(e as u32);
        }
        e = e + 1;
    }
    Ok(out)
}

fn push_group(
    ops: &mut Vec<Op>,
    config: &Qwen35Config,
    moe: &MoeConfig,
    expert: u32,
    rows: u32,
    at: ExpertAt,
    present: bool,
)
    requires
        rows * moe.expert_ff_len <= u32::MAX,
    ensures
        final(ops)@ == old(ops)@ + gather_ops(config@, expert, rows) + fetch_ops(
            at,
            expert,
            present,
        ) + group_ops(config@, *moe, at, rows),
{
    let ghost before = ops@;
    let hidden: u32 = config.embedding_length;
    let ff: u32 = moe.expert_ff_len;
    ops.push(Op::UploadGroup { expert, rows });
    ops.push(Op::GatherRows { rows, cols: hidden });
    proof {
        assert(ops@ =~= before + gather_ops(config@, expert, rows));
    }
    if !present {
        ops.push(Op::UploadExpert { part: ExpertPart::Gate, dst: at.gate, expert });
        ops.push(Op::UploadExpert { part: ExpertPart::Up, dst: at.up, expert });
        ops.push(Op::UploadExpert { part: ExpertPart::Down, dst: at.down, expert });
    }
    proof {
        assert(ops@ =~= before + gather_ops(config@, expert, rows) + fetch_ops(
            at,
            expert,
            present,
        ));
    }
    ops.push(
        Op::GemmQuant {
            part: ExpertPart::Gate,
            w: at.gate,
            x: start(Buf::GroupX),
            out: start(Buf::GroupGate),
            rows,
            m: ff,
            n: hidden,
        },
    );
    ops.push(
        Op::GemmQuant {
            part: ExpertPart::Up,
            w: at.up,
            x: start(Buf::GroupX),
            out: start(Buf::GroupUp),
            rows,
            m: ff,
            n: hidden,
        },
    );
    ops.push(
        Op::SiluMul {
            gate: start(Buf::GroupGate),
            up: start(Buf::GroupUp),
            out: start(Buf::GroupGate),
            n: rows * ff,
        },
    );
    ops.push(
        Op::GemmQuant {
            part: ExpertPart::Down,
            w: at.down,
            x: start(Buf::GroupGate),
            out: start(Buf::GroupDown),
            rows,
            m: hidden,
            n: ff,
        },
    );
    ops.push(Op::ScatterWeightedAccum { rows, cols: hidden });
    proof {
        assert(ops@ =~= before + gather_ops(config@, expert, rows) + fetch_ops(
            at,
            expert,
            present,
        ) + group_ops(config@, *moe, at, rows));
    }
}

/// The placements of a run of experts, where there is a cache.
pub open spec fn placed(has_cache: bool, p: Seq<Placement>) -> Option<Seq<Placement>> {
    if has_cache {
        Some(p)
    } else {
        None
    }
}

fn routed_plan(
    config: &Qwen35Config,
    moe: &MoeConfig,
    groups: &Vec<Vec<Assignment>>,
    experts: &Vec<u32>,
    has_cache: bool,
    placements: &Vec<Placement>,
    chunk_len: u32,
) -> (r: Vec<Op>)
    requires
        chunk_len * config.embedding_length <= u32::MAX,
        CHUNK_CAP * moe.expert_ff_len <= u32::MAX,
        has_cache ==> placements@.len() == experts@.len(),
        forall|i: int| 0 <= i < experts@.len() ==> (#[trigger] experts@[i]) < groups@.len(),
        forall|i: int| 0 <= i < groups@.len() ==> (#[trigger] groups@[i])@.len() <= CHUNK_CAP,
    ensures
        r@ == routed_chunk_ops(
            config@,
            *moe,
            group_views(groups@),
            experts@,
            placed(has_cache, placements@),
            experts@.len(),
        ) + chunk_moe_add_ops(config@, chunk_len),
{
    let ghost g = group_views(groups@);
    let ghost p = placed(has_cache, placements@);
    let mut ops: Vec<Op> = Vec::new();
    let mut k: usize = 0;
    while k < experts.len()
        invariant
            k <= experts@.len(),
            g == group_views(groups@),
            p == placed(has_cache, placements@),
            CHUNK_CAP * moe.expert_ff_len <= u32::MAX,
            has_cache ==> placements@.len() == experts@.len(),
            forall|i: int| 0 <= i < experts@.len() ==> (#[trigger] experts@[i]) < groups@.len(),
            forall|i: int| 0 <= i < groups@.len() ==> (#[trigger] groups@[i])@.len() <= CHUNK_CAP,
            ops@ == routed_chunk_ops(config@, *moe, g, experts@, p, k as nat),
        decreases experts@.len() - k,
    {
        let expert: u32 = experts[k];
        proof {
            assert(experts@[k as int] < groups@.len());
            assert(groups@[expert as int]@.len() <= CHUNK_CAP);
            assert(g[expert as int] == groups@[expert as int]@);
        }
        let rows: u32 = groups[expert as usize].len() as u32;
        proof {
            lemma_scaled(rows as int, CHUNK_CAP as int, moe.expert_ff_len as int);
        }
        let (at, present): (ExpertAt, bool) = if has_cache {
            (cached(placements[k]), placements[k].hit)
        } else {
            (staged(), false)
        };
        push_group(&mut ops, config, moe, expert, rows, at, present);
        k = k + 1;
    }
    let ghost planned = ops@;
    ops.push(
        Op::AddInplace {
            x: start(Buf::X),
            y: start(Buf::ChunkAccum),
            n: chunk_len * config.embedding_length,
        },
    );
    proof {
        assert(ops@ =~= planned + chunk_moe_add_ops(config@, chunk_len));
    }
    ops
}

/// Why a chunk's routing cannot be used, if anything: the first bad choice,
/// else the first group with more rows than the group buffers.
pub open spec fn routing_error(
    idx: Seq<i32>,
    weights: Seq<u32>,
    m: MoeConfig,
    rows: u32,
    e: ConfigError,
) -> bool {
    let n = rows * m.expert_used_count;
    let g = groups(idx, weights, m.expert_used_count as nat, m.expert_count as nat, n as nat);
    (exists|i: int|
        {
            &&& 0 <= i < n
            &&& selection_error(#[trigger] idx[i], m.expert_count) == Some(e)
            &&& all_valid(idx, m.expert_count, i)
        }) || (all_valid(idx, m.expert_count, n) && oversized(g, 0) == Some(e))
}

/// Plans the chosen experts of a chunk, once its routing was read back:
/// choices and weight bit patterns, row by row. A refused routing leaves the
/// cache as it was.
pub fn moe_ffn_chunk_step(
    config: &Qwen35Config,
    moe: &MoeConfig,
    layer_idx: u32,
    idx_host: &[i32],
    weight_host: &[u32],
    cache: &mut Option<ExpertCache>,
    chunk_len: u32,
) -> (r: Result<RoutedChunkPlan, ConfigError>)
    requires
        chunk_len * moe.expert_used_count <= idx_host@.len(),
        chunk_len * moe.expert_used_count <= weight_host@.len(),
        chunk_len * config.embedding_length <= u32::MAX,
        CHUNK_CAP * moe.expert_ff_len <= u32::MAX,
        cache_ready(*old(cache), moe.expert_count as int),
    ensures
        cache_ready(*final(cache), 0),
        match r {
            Err(e) => {
                &&& routing_error(idx_host@, weight_host@, *moe, chunk_len, e)
                &&& cache_model(*final(cache)) == cache_model(*old(cache))
            },
            Ok(plan) => {
                let n = chunk_len * moe.expert_used_count;
                let g = groups(
                    idx_host@,
                    weight_host@,
                    moe.expert_used_count as nat,
                    moe.expert_count as nat,
                    n as nat,
                );
                &&& all_valid(idx_host@, moe.expert_count, n)
                &&& oversized(g, 0) is None
                &&& is_routed_chunk_plan(
                    config@,
                    *moe,
                    layer_idx,
                    chunk_len,
                    g,
                    cache_model(*old(cache)),
                    cache_model(*final(cache)),
                    plan,
                )
            },
        },
{
    let buckets = match group_by_expert(
        idx_host,
        weight_host,
        chunk_len,
        moe.expert_used_count,
        moe.expert_count,
    ) {
        Ok(b) => b,
        Err(e) => {
            return Err(e);
        },
    };
    let ghost g = group_views(buckets@);
    proof {
        assert(g.len() == moe.expert_count);
        assert(buckets@.len() == g.len());
    }
    let experts = match find_touched(&buckets) {
        Ok(v) => v,
        Err(e) => {
            return Err(e);
        },
    };
    proof {
        lemma_touched(g, g.len());
        assert forall|i: int| 0 <= i < experts@.len() implies (#[trigger] experts@[i])
            < buckets@.len() by {
            assert(touched(g, g.len())[i] < g.len());
        }
    }
    match cache.take() {
        None => {
            let placements: Vec<Placement> = Vec::new();
            let ops = routed_plan(
                config,
                moe,
                &buckets,
                &experts,
                false,
                &placements,
                chunk_len,
            );
            Ok(RoutedChunkPlan { groups: buckets, experts, placements, ops })
        },
        Some(c) => {
            let mut c = c;
            let placements = place_experts(&mut c, layer_idx, &experts);
            *cache = Some(c);
            let ops = routed_plan(
                config,
                moe,
                &buckets,
                &experts,
                true,
                &placements,
                chunk_len,
            );
            Ok(RoutedChunkPlan { groups: buckets, experts, placements, ops })
        },
    }
}

} // verus!
