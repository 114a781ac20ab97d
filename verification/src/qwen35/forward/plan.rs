//! What a forward pass asks of the device: a list of steps, each of them a
//! kernel call, a copy, or a mark for the profiler. Operands name a buffer
//! and an element offset into it.

use crate::load_opts::KvDtype;
use vstd::prelude::*;

verus! {

/// A device buffer of the model, or of the layer the steps are about.
#[derive(Debug, Clone, Copy, PartialEq, Eq, Structural)]
pub enum Buf {
    // Activations.
    TokenIds,
    X,
    Xn,
    Logits,
    GdnQkv,
    GdnConvOut,
    GdnZ,
    GdnARaw,
    GdnBRaw,
    GdnBeta,
    GdnG,
    GdnY,
    GdnOut,
    L2AlphaK,
    L2AlphaQ,
    AttnQRaw,
    AttnQ,
    AttnGate,
    AttnK,
    AttnV,
    AttnConcat,
    AttnOut,
    FfnGate,
    FfnUp,
    FfnOut,
    // Chunkwise recurrence.
    CwQNorm,
    CwKNorm,
    CwKBeta,
    CwGCum,
    CwCumDecayExp,
    CwStateDecay,
    CwKb,
    CwKq,
    CwVNew,
    // Mixture of experts, one row.
    MoeXn,
    MoeRouterLogits,
    MoeTopkIdx,
    MoeTopkWeight,
    MoeSharedGateLogit,
    MoeFfnA,
    MoeFfnB,
    MoeExpertOut,
    MoeAccum,
    StageGate,
    StageUp,
    StageDown,
    // Mixture of experts, a chunk.
    ChunkRouterLogits,
    ChunkTopkIdx,
    ChunkTopkWeight,
    ChunkSharedGateLogit,
    SharedA,
    SharedB,
    SharedOut,
    ChunkAccum,
    GroupRowIdx,
    GroupWeight,
    GroupX,
    GroupGate,
    GroupUp,
    GroupDown,
    // Pools of cached experts.
    PoolGate,
    PoolUp,
    PoolDown,
    // State of the layer.
    ConvState,
    RecurState,
    PlaneK,
    PlaneV,
    SinkK,
    SinkV,
    WindowK,
    WindowV,
    BulkKCodes,
    BulkKScales,
    BulkVCodes,
    BulkVScales,
    // Small weights, single precision.
    AttnNorm,
    AttnQNorm,
    AttnKNorm,
    PostAttentionNorm,
    SsmConv1d,
    SsmA,
    SsmDtBias,
    SsmNorm,
    Router,
    SharedGate,
    OutputNorm,
}

/// A projection.
#[derive(Debug, Clone, Copy, PartialEq, Eq, Structural)]
pub enum Linear {
    AttnQ,
    AttnK,
    AttnV,
    AttnOutput,
    AttnQkv,
    AttnGate,
    SsmAlpha,
    SsmBeta,
    SsmOut,
    FfnGate,
    FfnUp,
    FfnDown,
    SharedGate,
    SharedUp,
    SharedDown,
    Output,
}

/// Which of a routed expert's three matrices.
#[derive(Debug, Clone, Copy, PartialEq, Eq, Structural)]
pub enum ExpertPart {
    Gate,
    Up,
    Down,
}

/// A place in a device buffer.
#[derive(Debug, Clone, Copy, PartialEq, Eq, Structural)]
pub struct At {
    pub buf: Buf,
    pub offset: usize,
}

/// The start of a buffer.
#[verifier::allow_in_spec]
pub fn start(buf: Buf) -> At
    returns
        (At { buf, offset: 0 }),
{
    At { buf, offset: 0 }
}

/// A buffer that appended rows go to.
pub open spec fn takes_rows(buf: Buf) -> bool {
    match buf {
        Buf::PlaneK | Buf::PlaneV | Buf::SinkK | Buf::SinkV | Buf::WindowK | Buf::WindowV => true,
        _ => false,
    }
}

/// Whether an operation is part of appending to a layer's key/value cache.
pub open spec fn appends(op: Op) -> bool {
    match op {
        Op::RotSim { .. } | Op::QuantizeEvictK { .. } | Op::QuantizeEvictV { .. } => true,
        Op::ScatterKv { .. } => true,
        Op::CastF16 { dst, .. } => takes_rows(dst.buf),
        Op::CopyDevice { dst, .. } => takes_rows(dst.buf),
        _ => false,
    }
}

impl Op {
    /// Whether this operation is part of appending to a layer's key/value
    /// cache.
    pub fn appends(&self) -> (r: bool)
        ensures
            r == appends(*self),
    {
        let to: Buf = match *self {
            Op::RotSim { .. } | Op::QuantizeEvictK { .. } | Op::QuantizeEvictV { .. } => {
                return true;
            },
            Op::ScatterKv { .. } => {
                return true;
            },
            Op::CastF16 { dst, .. } => dst.buf,
            Op::CopyDevice { dst, .. } => dst.buf,
            _ => {
                return false;
            },
        };
        match to {
            Buf::PlaneK | Buf::PlaneV | Buf::SinkK | Buf::SinkV | Buf::WindowK | Buf::WindowV => {
                true
            },
            _ => false,
        }
    }
}

/// What a normalisation adds to the mean square.
#[derive(Debug, Clone, Copy, PartialEq, Eq, Structural)]
pub enum Eps {
    /// The model's own value.
    Rms,
    /// One millionth, divided by `dim`.
    Millionth { dim: u32 },
}

/// Where a mixed cache's parts start and end, for a kernel that reads them.
#[derive(Debug, Clone, Copy, PartialEq, Eq, Structural)]
pub struct MixedPtrs {
    pub sink_k: At,
    pub sink_v: At,
    pub window_k: At,
    pub window_v: At,
    pub bulk_k_codes: At,
    pub bulk_k_scales: At,
    pub bulk_v_codes: At,
    pub bulk_v_scales: At,
    pub sink_len: u32,
    pub window_len: u32,
    pub window_base: u32,
    pub bulk_cap: u32,
    pub num_blocks_total: u32,
    pub v_bits: u8,
}

/// One thing the device does. Operands that an operation does not carry are
/// always the same buffers, named with it.
#[allow(inconsistent_fields)]
#[derive(Debug, Clone, Copy, PartialEq, Eq, Structural)]
pub enum Op {
    /// Token ids from the host, into `TokenIds`.
    UploadTokens { tokens: u32 },
    /// `Logits` to the host.
    ReadLogits { vocab: u32 },
    /// Embedding rows of the first `tokens` of `TokenIds`, into `X`.
    Embedding { tokens: u32, hidden: u32 },
    /// Root-mean-square norm of each of `rows` rows.
    Rmsnorm { x: At, weight: Buf, out: At, rows: u32, cols: u32, eps: Eps },
    /// `out[m] = w[m, n] x[n]`.
    Matvec { w: Linear, x: At, out: At, m: u32, n: u32 },
    /// `out[rows, m] = x[rows, n] w[m, n]^T`.
    Matmul { w: Linear, x: At, out: At, rows: u32, m: u32, n: u32 },
    /// [`Op::Matvec`] with a single-precision weight.
    GemvF32 { w: Buf, x: At, out: At, m: u32, n: u32 },
    /// [`Op::Matmul`] with a single-precision weight.
    GemmF32 { w: Buf, x: At, out: At, rows: u32, m: u32, n: u32 },
    /// [`Op::Matvec`] with a routed expert's quantized bytes.
    GemvQuant { part: ExpertPart, w: At, x: At, out: At, m: u32, n: u32 },
    /// [`Op::Matmul`] with a routed expert's quantized bytes.
    GemmQuant { part: ExpertPart, w: At, x: At, out: At, rows: u32, m: u32, n: u32 },
    /// `out = silu(gate) * up`.
    SiluMul { gate: At, up: At, out: At, n: u32 },
    /// `out = x * sigmoid(gate)`.
    SigmoidMul { x: At, gate: At, out: At, n: u32 },
    /// `x += y`.
    AddInplace { x: At, y: At, n: u32 },
    /// A copy between buffers.
    CopyDevice { dst: At, src: At, len: usize },
    /// Single precision to half precision.
    CastF16 { src: At, dst: At, len: u32 },
    /// One field of `head_dim` elements out of every head's `src_stride`.
    ExtractHeads {
        src: At,
        dst: At,
        tokens: u32,
        heads: u32,
        head_dim: u32,
        src_stride: u32,
        src_offset: u32,
    },
    /// Rotates the first `rot_dim` components of each head, by angles whose
    /// frequencies start from the number `freq_base` is the bit pattern of.
    RopePartial {
        x: At,
        tokens: u32,
        heads: u32,
        head_dim: u32,
        rot_dim: u32,
        freq_base: u32,
        pos_base: u32,
    },
    /// Rows into consecutive positions of every head's `max_seq` ones.
    ScatterKv {
        dtype: KvDtype,
        k_src: At,
        v_src: At,
        k_dst: Buf,
        v_dst: Buf,
        n_kv_heads: u32,
        head_dim: u32,
        max_seq: u32,
        rows: u32,
        pos_base: u32,
    },
    /// One query, `AttnQ`, over `PlaneK` and `PlaneV`, into `AttnConcat`. Here
    /// and below, scores are divided by the square root of `head_dim`.
    AttnDecode {
        dtype: KvDtype,
        n_heads: u32,
        n_kv_heads: u32,
        head_dim: u32,
        max_seq: u32,
        cur_len: u32,
    },
    /// One query, `AttnQ`, over a mixed cache, into `AttnConcat`.
    AttnDecodeMixed {
        ptrs: MixedPtrs,
        n_heads: u32,
        n_kv_heads: u32,
        head_dim: u32,
        cur_len: u32,
    },
    /// A chunk of queries, `AttnQ`, over `PlaneK` and `PlaneV`, each seeing
    /// what precedes it, into `AttnConcat`.
    AttnPrefill {
        dtype: KvDtype,
        n_heads: u32,
        n_kv_heads: u32,
        head_dim: u32,
        max_seq: u32,
        chunk_len: u32,
        pos_base: u32,
    },
    /// A chunk of queries, `AttnQ`, over a mixed cache, each seeing what
    /// precedes it, into `AttnConcat`.
    AttnPrefillMixed {
        ptrs: MixedPtrs,
        n_heads: u32,
        n_kv_heads: u32,
        head_dim: u32,
        chunk_len: u32,
        pos_base: u32,
    },
    /// Distorts `WindowV`, and `WindowK` where asked to, the way a coarser
    /// quantization would.
    RotSim { bpw: u8, apply_to_k: bool, n_kv_heads: u32, window_len: u32, head_dim: u32 },
    /// Quantizes `WindowK` into a block of `BulkKCodes` and `BulkKScales`.
    QuantizeEvictK {
        n_kv_heads: u32,
        window_len: u32,
        head_dim: u32,
        bulk_cap: u32,
        num_blocks_total: u32,
        block: u32,
    },
    /// Quantizes `WindowV` into a block of `BulkVCodes` and `BulkVScales`.
    QuantizeEvictV {
        v_bits: u8,
        n_kv_heads: u32,
        window_len: u32,
        head_dim: u32,
        bulk_cap: u32,
        block: u32,
    },
    /// Causal convolution of one token with `SsmConv1d`, from `GdnQkv` into
    /// `GdnConvOut`, advancing the history in `ConvState`.
    GdnConv1dDecode { channels: u32, kernel_size: u32 },
    /// The same of a chunk, leaving the history as it was.
    GdnConv1dChunk { channels: u32, kernel_size: u32, chunk_len: u32 },
    /// Advances the history in `ConvState` past a chunk in `GdnQkv`.
    GdnConv1dChunkStateUpdate { channels: u32, kernel_size: u32, chunk_len: u32 },
    /// Write strength `GdnBeta` and decay `GdnG` of each head, one token, from
    /// `GdnBRaw` and `GdnARaw` with `SsmA` and `SsmDtBias`.
    GdnGate { n: u32 },
    /// The same for every token of a chunk.
    GdnGateChunk { heads: u32, chunk_len: u32 },
    /// One step of the recurrence with `GdnBeta` and `GdnG`: `RecurState` is
    /// updated and read out into `GdnY`.
    GdnRecurrenceDecode {
        q: At,
        k: At,
        v: At,
        num_heads: u32,
        num_k_heads: u32,
        head_k_dim: u32,
        head_v_dim: u32,
    },
    /// Normalised queries and keys of a tile, into `CwQNorm`, `CwKNorm` and
    /// `CwKBeta`.
    CwPrepPoint {
        conv_out: At,
        beta: At,
        num_v_heads: u32,
        num_k_heads: u32,
        head_k_dim: u32,
        conv_dim: u32,
        key_dim: u32,
        tile_len: u32,
        eps: Eps,
    },
    /// Running decays of a tile, into `CwGCum`, `CwCumDecayExp` and
    /// `CwStateDecay`.
    CwPrepCumsum { g: At, num_v_heads: u32, tile_len: u32 },
    /// The tile's triangular system, in `CwKb`, and its scores, in `CwKq`,
    /// from `CwQNorm`, `CwKNorm`, `CwKBeta` and `CwGCum`.
    CwUtBuild { wmma: bool, num_v_heads: u32, head_k_dim: u32, tile_len: u32 },
    /// Inverts the triangular system in `CwKb` in place.
    CwTinv { num_v_heads: u32, tile_len: u32 },
    /// The tile's corrected values, into `CwVNew`, from `CwKb`, `CwKBeta`,
    /// `CwCumDecayExp` and `RecurState`.
    CwUvVnew {
        conv_out: At,
        beta: At,
        num_v_heads: u32,
        num_k_heads: u32,
        head_k_dim: u32,
        head_v_dim: u32,
        conv_dim: u32,
        key_dim: u32,
        tile_len: u32,
    },
    /// The tile's readout from `CwQNorm`, `CwCumDecayExp`, `RecurState`, `CwKq`
    /// and `CwVNew`.
    CwOutput {
        wmma: bool,
        y: At,
        num_v_heads: u32,
        head_k_dim: u32,
        head_v_dim: u32,
        tile_len: u32,
    },
    /// Carries `RecurState` past the tile, with `CwKNorm`, `CwCumDecayExp`,
    /// `CwStateDecay` and `CwVNew`.
    CwStateUpdate {
        wmma: bool,
        num_v_heads: u32,
        head_k_dim: u32,
        head_v_dim: u32,
        tile_len: u32,
    },
    /// The `top_k` experts of each row, with renormalised weights.
    RouteTopk {
        logits: Buf,
        out_idx: Buf,
        out_weight: Buf,
        rows: u32,
        expert_count: u32,
        top_k: u32,
    },
    /// `accum = y * sigmoid(gate)`, one row: `MoeExpertOut` scaled by
    /// `MoeSharedGateLogit` into `MoeAccum`.
    SharedGateWrite { n: u32 },
    /// `accum = y * sigmoid(gate)`, each of `rows` rows: `SharedOut` scaled by
    /// `ChunkSharedGateLogit` into `ChunkAccum`.
    SharedGateWriteChunk { rows: u32, cols: u32 },
    /// `accum += weight[k] * expert output`: `MoeExpertOut` into `MoeAccum`.
    WeightedAccum { weight: At, n: u32 },
    /// The rows of `Xn` that `GroupRowIdx` names, packed together in `GroupX`.
    GatherRows { rows: u32, cols: u32 },
    /// Adds the rows of `GroupDown`, weighted by `GroupWeight`, to the rows of
    /// `ChunkAccum` that `GroupRowIdx` names.
    ScatterWeightedAccum { rows: u32, cols: u32 },
    /// An expert's quantized bytes from the host.
    UploadExpert { part: ExpertPart, dst: At, expert: u32 },
    /// [`Op::UploadExpert`] on the copy stream, ordered after every compute
    /// marked done so far.
    StartUploadExpert { part: ExpertPart, dst: At, expert: u32 },
    /// Marks every kernel issued so far.
    MarkComputeDone,
    /// Orders what follows after the upload that was started last.
    WaitUpload,
    /// A group's row indices and weights from the host, into `GroupRowIdx` and
    /// `GroupWeight`.
    UploadGroup { expert: u32, rows: u32 },
}

/// What the profiler books a scope under.
#[derive(Debug, Clone, Copy, PartialEq, Eq, Structural)]
pub enum OpKind {
    Embed,
    Norm,
    Qkv,
    AttnDecode,
    AttnOut,
    GdnConv,
    GdnRecur,
    GdnOut,
    FfnGateUp,
    FfnDown,
    LmHead,
    Layer,
}

/// A term of a scope's analytical cost, in bytes moved and operations.
#[allow(inconsistent_fields)]
#[derive(Debug, Clone, Copy, PartialEq, Eq, Structural)]
pub enum Term {
    /// Embedding rows.
    Embed { hidden: u32, tokens: u32 },
    /// A normalisation of `rows` rows.
    Norm { rows: u32, cols: u32 },
    /// A projection: its weight read once, its operations per row.
    Project { w: Linear, m: u32, n: u32, rows: u32 },
    /// One query over `cur_len` cached positions.
    AttnDecode { n_heads: u32, n_kv_heads: u32, cur_len: u32, head_dim: u32, n_splits: u32 },
    /// A chunk of queries, each over what precedes it.
    AttnPrefill {
        n_heads: u32,
        n_kv_heads: u32,
        head_dim: u32,
        pos_base: u32,
        chunk_len: u32,
    },
    /// A causal convolution.
    GdnConv { channels: u32, kernel_size: u32, tokens: u32 },
    /// One recurrence step.
    GdnRecur { heads: u32, head_k_dim: u32, head_v_dim: u32 },
    /// A tile of the chunkwise recurrence, `tiles` times.
    GdnChunkwise { heads: u32, tile_len: u32, head_k_dim: u32, head_v_dim: u32, tiles: u32 },
    /// A single-precision router: four bytes and two operations an element.
    Router { expert_count: u32, hidden: u32 },
    /// `used` experts with their three projections, each taken for two
    /// matrices of the first size and one of the second.
    RoutedExperts { gate_bytes: usize, down_bytes: usize, ff: u32, hidden: u32, used: u32 },
    /// Bytes and operations given outright.
    Exact { bytes: u64, flops: u64 },
}

/// An activation that a diagnostic run records.
#[derive(Debug, Clone, Copy, PartialEq, Eq, Structural)]
pub enum Probe {
    GdnXn,
    GdnQkvRaw,
    GdnYSilu,
    GdnSsmOutRaw,
    ResidPreFfn,
    FfnXn,
    FfnGateSilu,
    FfnDownOut,
    ResidPost,
}

/// One step of a forward pass.
#[allow(inconsistent_fields)]
#[derive(Debug, Clone, Copy, PartialEq, Eq, Structural)]
pub enum Step {
    /// What follows is about this layer.
    Layer { index: u32 },
    /// What follows is about no layer.
    Outside,
    /// A profiler scope opens.
    Enter { kind: OpKind },
    /// A term of the open scope's cost.
    Cost { term: Term },
    /// The profiler scope closes.
    Leave,
    /// The device does something.
    Run { op: Op },
    /// The position moves past the pass's tokens.
    Advance,
    /// The first `rows * cols` elements of a buffer are recorded.
    Record { probe: Probe, buf: Buf, rows: u32, cols: u32 },
}

/// What the device does among the steps, in order.
pub open spec fn ops_of(s: Seq<Step>) -> Seq<Op>
    decreases s.len(),
{
    if s.len() == 0 {
        Seq::empty()
    } else {
        let before = ops_of(s.drop_last());
        match s.last() {
            Step::Run { op } => before.push(op),
            _ => before,
        }
    }
}

/// The operations of two runs of steps are those of the one, then those of
/// the other.
pub proof fn lemma_ops_concat(a: Seq<Step>, b: Seq<Step>)
    ensures
        ops_of(a + b) == ops_of(a) + ops_of(b),
    decreases b.len(),
{
    if b.len() == 0 {
        assert(a + b =~= a);
        assert(ops_of(a) + ops_of(b) =~= ops_of(a));
    } else {
        lemma_ops_concat(a, b.drop_last());
        assert((a + b).drop_last() =~= a + b.drop_last());
        assert((a + b).last() == b.last());
        match b.last() {
            Step::Run { op } => {
                assert(ops_of(a) + ops_of(b.drop_last()).push(op) =~= (ops_of(a) + ops_of(
                    b.drop_last(),
                )).push(op));
            },
            _ => {},
        }
    }
}

/// The steps that run these operations.
pub open spec fn runs(ops: Seq<Op>) -> Seq<Step> {
    ops.map_values(|op: Op| Step::Run { op })
}

/// The steps that charge these terms.
pub open spec fn costs(terms: Seq<Term>) -> Seq<Step> {
    terms.map_values(|term: Term| Step::Cost { term })
}

/// Operations in a profiler scope, or bare when nothing is profiled.
pub open spec fn scope(scoped: bool, kind: OpKind, terms: Seq<Term>, ops: Seq<Op>) -> Seq<Step> {
    if scoped {
        seq![Step::Enter { kind }] + costs(terms) + runs(ops) + seq![Step::Leave]
    } else {
        runs(ops)
    }
}

/// Steps in a profiler scope, or bare when nothing is profiled.
pub open spec fn scope_of(scoped: bool, kind: OpKind, terms: Seq<Term>, body: Seq<Step>) -> Seq<
    Step,
> {
    if scoped {
        seq![Step::Enter { kind }] + costs(terms) + body + seq![Step::Leave]
    } else {
        body
    }
}

/// The recording of an activation, when a diagnostic run asks for it.
pub open spec fn record(captured: bool, probe: Probe, buf: Buf, rows: u32, cols: u32) -> Seq<Step> {
    if captured {
        seq![Step::Record { probe, buf, rows, cols }]
    } else {
        Seq::empty()
    }
}

/// Recording an activation runs nothing.
pub proof fn lemma_ops_record(captured: bool, probe: Probe, buf: Buf, rows: u32, cols: u32)
    ensures
        ops_of(record(captured, probe, buf, rows, cols)) == Seq::<Op>::empty(),
{
    lemma_ops_none(record(captured, probe, buf, rows, cols));
}

/// A scope changes nothing about what its steps run.
pub proof fn lemma_ops_scope_of(scoped: bool, kind: OpKind, terms: Seq<Term>, body: Seq<Step>)
    ensures
        ops_of(scope_of(scoped, kind, terms, body)) == ops_of(body),
{
    if scoped {
        let enter = seq![Step::Enter { kind }];
        let leave = seq![Step::Leave];
        lemma_ops_none(enter);
        lemma_ops_none(costs(terms));
        lemma_ops_none(leave);
        lemma_ops_concat(enter, costs(terms));
        lemma_ops_concat(enter + costs(terms), body);
        lemma_ops_concat(enter + costs(terms) + body, leave);
        assert(Seq::<Op>::empty() + Seq::<Op>::empty() + ops_of(body) + Seq::<Op>::empty()
            =~= ops_of(body));
    }
}

/// Steps with nothing to run have no operations.
pub proof fn lemma_ops_none(s: Seq<Step>)
    requires
        forall|i: int| 0 <= i < s.len() ==> !(#[trigger] s[i] is Run),
    ensures
        ops_of(s) == Seq::<Op>::empty(),
    decreases s.len(),
{
    if s.len() > 0 {
        let last = s[s.len() - 1];
        assert(!(last is Run));
        lemma_ops_none(s.drop_last());
    }
}

/// Running operations is those operations.
pub proof fn lemma_ops_runs(ops: Seq<Op>)
    ensures
        ops_of(runs(ops)) == ops,
    decreases ops.len(),
{
    if ops.len() == 0 {
        assert(runs(ops) =~= Seq::empty());
    } else {
        lemma_ops_runs(ops.drop_last());
        assert(runs(ops).drop_last() =~= runs(ops.drop_last()));
        assert(ops.drop_last().push(ops.last()) =~= ops);
    }
}

/// A scope changes nothing about what is run.
pub proof fn lemma_ops_scope(scoped: bool, kind: OpKind, terms: Seq<Term>, ops: Seq<Op>)
    ensures
        ops_of(scope(scoped, kind, terms, ops)) == ops,
{
    lemma_ops_runs(ops);
    if scoped {
        let enter = seq![Step::Enter { kind }];
        let leave = seq![Step::Leave];
        lemma_ops_none(enter);
        lemma_ops_none(costs(terms));
        lemma_ops_none(leave);
        lemma_ops_concat(enter, costs(terms));
        lemma_ops_concat(enter + costs(terms), runs(ops));
        lemma_ops_concat(enter + costs(terms) + runs(ops), leave);
        assert(Seq::<Op>::empty() + Seq::<Op>::empty() + ops + Seq::<Op>::empty() =~= ops);
    }
}

/// Opens a scope and charges its cost, when anything is profiled.
pub fn push_enter(steps: &mut Vec<Step>, scoped: bool, kind: OpKind, terms: &[Term])
    ensures
        final(steps)@ == old(steps)@ + (if scoped {
            seq![Step::Enter { kind }] + costs(terms@)
        } else {
            Seq::empty()
        }),
{
    let ghost before = steps@;
    if scoped {
        steps.push(Step::Enter { kind });
        let ghost entered = steps@;
        let mut i: usize = 0;
        while i < terms.len()
            invariant
                i <= terms@.len(),
                steps@ == entered + costs(terms@.take(i as int)),
            decreases terms@.len() - i,
        {
            steps.push(Step::Cost { term: terms[i] });
            proof {
                assert(costs(terms@.take(i + 1)) =~= costs(terms@.take(i as int)).push(
                    Step::Cost { term: terms@[i as int] },
                ));
            }
            i = i + 1;
        }
        proof {
            assert(terms@.take(i as int) =~= terms@);
            assert(steps@ =~= before + (seq![Step::Enter { kind }] + costs(terms@)));
        }
    } else {
        proof {
            assert(before + Seq::<Step>::empty() =~= before);
        }
    }
}

/// Closes a scope, when anything is profiled.
pub fn push_leave(steps: &mut Vec<Step>, scoped: bool)
    ensures
        final(steps)@ == old(steps)@ + (if scoped {
            seq![Step::Leave]
        } else {
            Seq::empty()
        }),
{
    let ghost before = steps@;
    if scoped {
        steps.push(Step::Leave);
    }
    proof {
        assert(steps@ =~= before + (if scoped {
            seq![Step::Leave]
        } else {
            Seq::empty()
        }));
    }
}

/// Appends the recording of an activation, when asked for.
pub fn push_record(
    steps: &mut Vec<Step>,
    captured: bool,
    probe: Probe,
    buf: Buf,
    rows: u32,
    cols: u32,
)
    ensures
        final(steps)@ == old(steps)@ + record(captured, probe, buf, rows, cols),
{
    let ghost before = steps@;
    if captured {
        steps.push(Step::Record { probe, buf, rows, cols });
    }
    proof {
        assert(steps@ =~= before + record(captured, probe, buf, rows, cols));
    }
}

/// Appends a scope to a list of steps.
pub fn push_scope(steps: &mut Vec<Step>, scoped: bool, kind: OpKind, terms: &[Term], ops: &[Op])
    ensures
        final(steps)@ == old(steps)@ + scope(scoped, kind, terms@, ops@),
{
    let ghost before = steps@;
    push_enter(steps, scoped, kind, terms);
    push_runs(steps, ops);
    push_leave(steps, scoped);
    proof {
        assert(steps@ =~= before + scope(scoped, kind, terms@, ops@));
    }
}

/// Appends operations to a list of steps.
pub fn push_runs(steps: &mut Vec<Step>, ops: &[Op])
    ensures
        final(steps)@ == old(steps)@ + runs(ops@),
{
    let ghost before = steps@;
    let mut i: usize = 0;
    while i < ops.len()
        invariant
            i <= ops@.len(),
            steps@ == before + runs(ops@.take(i as int)),
        decreases ops@.len() - i,
    {
        steps.push(Step::Run { op: ops[i] });
        proof {
            assert(runs(ops@.take(i + 1)) =~= runs(ops@.take(i as int)).push(
                Step::Run { op: ops@[i as int] },
            ));
        }
        i = i + 1;
    }
    proof {
        assert(ops@.take(i as int) =~= ops@);
    }
}

} // verus!
