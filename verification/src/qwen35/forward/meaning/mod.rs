//! What a pass computes. The kernels are given as functions of the numbers
//! they read; the laws here say which numbers of the model each operation of
//! a plan is applied to, and so what every plan leaves behind.

pub mod attention;
pub mod costs;
pub mod ends;
pub mod experts;
pub mod ffn;
pub mod gdn;
pub mod grouped;
pub mod heads;
pub mod layers;
pub mod mixed;
pub mod qkv;
pub mod records;
pub mod recur;
pub mod routed;
pub mod tensors;
pub mod waits;
pub mod whole;

use super::plan::{At, Buf, Eps, ExpertPart, Linear, MixedPtrs, Op};
use crate::load_opts::KvDtype;
use crate::qwen35::cache::effect::{after_op, DeviceModel, Memory};
use crate::qwen35::moe::route::Assignment;
use vstd::prelude::*;

verus! {

/// The cached keys and values that an attention kernel reads.
#[verifier::reject_recursive_types(T)]
pub enum CacheView<T> {
    Dense { dtype: KvDtype, max_seq: u32, k: spec_fn(int) -> T, v: spec_fn(int) -> T },
    Mixed {
        sink_k: spec_fn(int) -> T,
        sink_v: spec_fn(int) -> T,
        window_k: spec_fn(int) -> T,
        window_v: spec_fn(int) -> T,
        bulk_k_codes: spec_fn(int) -> T,
        bulk_k_scales: spec_fn(int) -> T,
        bulk_v_codes: spec_fn(int) -> T,
        bulk_v_scales: spec_fn(int) -> T,
        sink_len: u32,
        window_len: u32,
        window_base: u32,
        bulk_cap: u32,
        num_blocks_total: u32,
        v_bits: u8,
    },
}

/// Query heads, key/value heads, and the width of each.
pub struct HeadShape {
    pub n_heads: u32,
    pub n_kv_heads: u32,
    pub head_dim: u32,
}

/// Heads of a linear-attention layer, and their widths.
pub struct RecurShape {
    pub num_v_heads: u32,
    pub num_k_heads: u32,
    pub head_k_dim: u32,
    pub head_v_dim: u32,
}

/// A tile of a chunk's recurrence.
pub struct TileShape {
    pub num_v_heads: u32,
    pub num_k_heads: u32,
    pub head_k_dim: u32,
    pub conv_dim: u32,
    pub key_dim: u32,
    pub tile_len: u32,
}

/// The kernels, and what the host hands over. A function that gives the
/// numbers of a row takes the row it reads and the place of the number.
#[verifier::reject_recursive_types(T)]
pub struct Machine<T> {
    /// Token ids that the host uploads.
    pub ids: Seq<T>,
    /// Rows and weights of every expert's group.
    pub groups: Seq<Seq<Assignment>>,
    /// An expert's matrix on the host.
    pub matrix: spec_fn(ExpertPart, u32) -> T,
    /// A routing weight out of its bits.
    pub weight: spec_fn(u32) -> T,
    pub embed: spec_fn(T, int) -> T,
    pub norm: spec_fn(Buf, Eps, Seq<T>, int) -> T,
    pub project: spec_fn(Linear, Seq<T>, int) -> T,
    pub project_single: spec_fn(Buf, Seq<T>, int) -> T,
    /// A row times an expert's matrix, of the kind that the part has.
    pub project_expert: spec_fn(ExpertPart, T, Seq<T>, int) -> T,
    pub silu_mul: spec_fn(T, T) -> T,
    pub sigmoid_mul: spec_fn(T, T) -> T,
    pub add: spec_fn(T, T) -> T,
    /// Half precision.
    pub half: spec_fn(T) -> T,
    /// One head, rotated: components, base, position.
    pub rotate: spec_fn(u32, u32, int, Seq<T>, int) -> T,
    /// One query over so many cached positions.
    pub attend: spec_fn(HeadShape, CacheView<T>, int, Seq<T>, int) -> T,
    /// The convolution of one token, after a history.
    pub conv: spec_fn(u32, Seq<T>, Seq<T>, int) -> T,
    /// The history after one more token.
    pub slide: spec_fn(u32, Seq<T>, Seq<T>, int) -> T,
    pub beta: spec_fn(T, int) -> T,
    pub decay: spec_fn(T, int) -> T,
    /// Readout and state after one step of the recurrence, from the state,
    /// query, key, value, write strength and decay.
    pub recur_out: spec_fn(RecurShape, Seq<Seq<T>>, int) -> T,
    pub recur_state: spec_fn(RecurShape, Seq<Seq<T>>, int) -> T,
    pub tile_q: spec_fn(TileShape, Eps, Seq<T>, int) -> T,
    pub tile_k: spec_fn(TileShape, Eps, Seq<T>, int) -> T,
    pub tile_k_beta: spec_fn(TileShape, Eps, Seq<T>, Seq<T>, int) -> T,
    /// Running sums, running decays, and the decay of the state.
    pub tile_g: spec_fn(u32, Seq<T>, int) -> T,
    pub tile_decay: spec_fn(u32, Seq<T>, int) -> T,
    pub tile_state_decay: spec_fn(u32, Seq<T>, int) -> T,
    pub tile_system: spec_fn(Seq<T>, Seq<T>, Seq<T>, int) -> T,
    pub tile_scores: spec_fn(Seq<T>, Seq<T>, Seq<T>, int) -> T,
    pub tile_inverse: spec_fn(Seq<T>, int) -> T,
    pub tile_values: spec_fn(TileShape, Seq<Seq<T>>, int) -> T,
    pub tile_out: spec_fn(Seq<Seq<T>>, int) -> T,
    pub tile_state: spec_fn(Seq<Seq<T>>, int) -> T,
    /// The experts of a row and their weights, from the router's logits.
    pub choice: spec_fn(u32, Seq<T>, int) -> T,
    pub choice_weight: spec_fn(u32, Seq<T>, int) -> T,
    /// An expert's output scaled by a weight, added to a sum.
    pub accumulate: spec_fn(T, T, T) -> T,
    /// Anything an operation does that is not about numbers of a pass.
    pub other: spec_fn(Memory<T>, Op) -> Memory<T>,
}

/// What the device holds, which copies of matrices are under way, which group
/// the host uploaded last, and the logits that were read back.
#[verifier::reject_recursive_types(T)]
pub struct Held<T> {
    pub mem: Memory<T>,
    pub flying: Seq<(At, T)>,
    pub group: Seq<Assignment>,
    pub logits: Seq<T>,
}

/// `n` elements of a buffer.
pub open spec fn row<T>(mem: Memory<T>, buf: Buf, from: int, n: int) -> Seq<T> {
    Seq::new(n as nat, |j: int| mem(buf, from + j))
}

/// `n` elements of a buffer replaced.
pub open spec fn put<T>(mem: Memory<T>, out: At, n: int, f: spec_fn(int) -> T) -> Memory<T> {
    |b: Buf, i: int|
        if b == out.buf && out.offset <= i < out.offset + n {
            f(i - out.offset)
        } else {
            mem(b, i)
        }
}

/// `rows` rows of `m` elements replaced.
pub open spec fn put_rows<T>(
    mem: Memory<T>,
    out: At,
    rows: int,
    m: int,
    f: spec_fn(int, int) -> T,
) -> Memory<T> {
    put(mem, out, rows * m, |i: int| f(i / m, i % m))
}

/// The history after `n` more rows of inputs.
pub open spec fn history<T>(
    k: Machine<T>,
    kernel: u32,
    before: Seq<T>,
    inputs: spec_fn(int) -> Seq<T>,
    n: nat,
) -> Seq<T>
    decreases n,
{
    if n == 0 {
        before
    } else {
        let h = history(k, kernel, before, inputs, (n - 1) as nat);
        Seq::new(before.len(), |i: int| (k.slide)(kernel, h, inputs(n - 1), i))
    }
}

/// A chunk's accumulator after the first `n` rows of a group were added.
pub open spec fn group_added<T>(
    k: Machine<T>,
    mem: Memory<T>,
    group: Seq<Assignment>,
    cols: int,
    n: nat,
) -> Memory<T>
    decreases n,
{
    if n == 0 {
        mem
    } else {
        let g = group[n - 1];
        let before = group_added(k, mem, group, cols, (n - 1) as nat);
        put(
            before,
            At { buf: Buf::ChunkAccum, offset: (g.0 * cols) as usize },
            cols,
            |j: int|
                (k.accumulate)(
                    before(Buf::ChunkAccum, g.0 * cols + j),
                    (k.weight)(g.1),
                    mem(Buf::GroupDown, (n - 1) * cols + j),
                ),
        )
    }
}

/// A buffer that experts' matrices are copied to.
pub open spec fn takes_experts(b: Buf) -> bool {
    match b {
        Buf::StageGate | Buf::StageUp | Buf::StageDown => true,
        Buf::PoolGate | Buf::PoolUp | Buf::PoolDown => true,
        _ => false,
    }
}

/// A matrix at its place.
pub open spec fn with_matrix<T>(mem: Memory<T>, at: At, matrix: T) -> Memory<T> {
    |b: Buf, i: int|
        if b == at.buf && i == at.offset && takes_experts(b) {
            matrix
        } else {
            mem(b, i)
        }
}

/// Memory after copies have arrived.
pub open spec fn arrived<T>(mem: Memory<T>, flying: Seq<(At, T)>) -> Memory<T>
    decreases flying.len(),
{
    if flying.len() == 0 {
        mem
    } else {
        with_matrix(arrived(mem, flying.drop_last()), flying.last().0, flying.last().1)
    }
}

/// Elements from a place on.
pub open spec fn from<T>(mem: Memory<T>, at: At) -> spec_fn(int) -> T {
    |i: int| mem(at.buf, at.offset + i)
}

/// The mixed cache a kernel is pointed to.
pub open spec fn mixed_view<T>(mem: Memory<T>, p: MixedPtrs) -> CacheView<T> {
    CacheView::Mixed {
        sink_k: from(mem, p.sink_k),
        sink_v: from(mem, p.sink_v),
        window_k: from(mem, p.window_k),
        window_v: from(mem, p.window_v),
        bulk_k_codes: from(mem, p.bulk_k_codes),
        bulk_k_scales: from(mem, p.bulk_k_scales),
        bulk_v_codes: from(mem, p.bulk_v_codes),
        bulk_v_scales: from(mem, p.bulk_v_scales),
        sink_len: p.sink_len,
        window_len: p.window_len,
        window_base: p.window_base,
        bulk_cap: p.bulk_cap,
        num_blocks_total: p.num_blocks_total,
        v_bits: p.v_bits,
    }
}

/// The dense planes.
pub open spec fn dense_view<T>(mem: Memory<T>, dtype: KvDtype, max_seq: u32) -> CacheView<T> {
    CacheView::Dense {
        dtype,
        max_seq,
        k: from(mem, At { buf: Buf::PlaneK, offset: 0 }),
        v: from(mem, At { buf: Buf::PlaneV, offset: 0 }),
    }
}

/// How rows are stored: as they are, or in half precision.
pub open spec fn storing<T>(k: Machine<T>, mem: Memory<T>) -> DeviceModel<T> {
    DeviceModel {
        rows: |dtype: KvDtype, b: Buf, i: int|
            match dtype {
                KvDtype::F16 => (k.half)(mem(b, i)),
                KvDtype::F32 => mem(b, i),
            },
        other: k.other,
    }
}

/// `rows` queries, each over what precedes it and itself.
pub open spec fn attended<T>(
    k: Machine<T>,
    mem: Memory<T>,
    s: HeadShape,
    view: CacheView<T>,
    rows: int,
    pos: int,
) -> Memory<T> {
    let q = s.n_heads * s.head_dim;
    put_rows(
        mem,
        At { buf: Buf::AttnConcat, offset: 0 },
        rows,
        q,
        |r: int, j: int| (k.attend)(s, view, pos + r + 1, row(mem, Buf::AttnQ, r * q, q), j),
    )
}

/// Matrix times row, for `rows` rows.
pub open spec fn product<T>(
    mem: Memory<T>,
    f: spec_fn(Seq<T>, int) -> T,
    x: At,
    out: At,
    rows: int,
    m: int,
    n: int,
) -> Memory<T> {
    put_rows(mem, out, rows, m, |r: int, j: int| f(row(mem, x.buf, x.offset + r * n, n), j))
}

/// What one operation leaves in memory.
pub open spec fn memory_after<T>(k: Machine<T>, h: Held<T>, op: Op) -> Memory<T> {
    let mem = h.mem;
    match op {
        Op::UploadTokens { tokens } => put(
            mem,
            At { buf: Buf::TokenIds, offset: 0 },
            tokens as int,
            |i: int| k.ids[i],
        ),
        Op::Embedding { tokens, hidden } => put_rows(
            mem,
            At { buf: Buf::X, offset: 0 },
            tokens as int,
            hidden as int,
            |r: int, j: int| (k.embed)(mem(Buf::TokenIds, r), j),
        ),
        Op::Rmsnorm { x, weight, out, rows, cols, eps } => product(
            mem,
            |s: Seq<T>, j: int| (k.norm)(weight, eps, s, j),
            x,
            out,
            rows as int,
            cols as int,
            cols as int,
        ),
        Op::Matvec { w, x, out, m, n } => product(
            mem,
            |s: Seq<T>, j: int| (k.project)(w, s, j),
            x,
            out,
            1,
            m as int,
            n as int,
        ),
        Op::Matmul { w, x, out, rows, m, n } => product(
            mem,
            |s: Seq<T>, j: int| (k.project)(w, s, j),
            x,
            out,
            rows as int,
            m as int,
            n as int,
        ),
        Op::GemvF32 { w, x, out, m, n } => product(
            mem,
            |s: Seq<T>, j: int| (k.project_single)(w, s, j),
            x,
            out,
            1,
            m as int,
            n as int,
        ),
        Op::GemmF32 { w, x, out, rows, m, n } => product(
            mem,
            |s: Seq<T>, j: int| (k.project_single)(w, s, j),
            x,
            out,
            rows as int,
            m as int,
            n as int,
        ),
        Op::GemvQuant { part, w, x, out, m, n } => product(
            mem,
            |s: Seq<T>, j: int| (k.project_expert)(part, mem(w.buf, w.offset as int), s, j),
            x,
            out,
            1,
            m as int,
            n as int,
        ),
        Op::GemmQuant { part, w, x, out, rows, m, n } => product(
            mem,
            |s: Seq<T>, j: int| (k.project_expert)(part, mem(w.buf, w.offset as int), s, j),
            x,
            out,
            rows as int,
            m as int,
            n as int,
        ),
        Op::SiluMul { gate, up, out, n } => put(
            mem,
            out,
            n as int,
            |i: int| (k.silu_mul)(mem(gate.buf, gate.offset + i), mem(up.buf, up.offset + i)),
        ),
        Op::SigmoidMul { x, gate, out, n } => put(
            mem,
            out,
            n as int,
            |i: int| (k.sigmoid_mul)(mem(x.buf, x.offset + i), mem(gate.buf, gate.offset + i)),
        ),
        Op::AddInplace { x, y, n } => put(
            mem,
            x,
            n as int,
            |i: int| (k.add)(mem(x.buf, x.offset + i), mem(y.buf, y.offset + i)),
        ),
        Op::CopyDevice { .. } | Op::CastF16 { .. } | Op::ScatterKv { .. } => after_op(
            storing(k, mem),
            mem,
            op,
            0,
        ),
        Op::ExtractHeads { src, dst, tokens, heads, head_dim, src_stride, src_offset } => put_rows(
            mem,
            dst,
            tokens * heads,
            head_dim as int,
            |r: int, j: int| mem(src.buf, src.offset + r * src_stride + src_offset + j),
        ),
        Op::RopePartial { x, tokens, heads, head_dim, rot_dim, freq_base, pos_base } => put_rows(
            mem,
            x,
            tokens * heads,
            head_dim as int,
            |r: int, j: int|
                (k.rotate)(
                    rot_dim,
                    freq_base,
                    pos_base + r / heads as int,
                    row(mem, x.buf, x.offset + r * head_dim, head_dim as int),
                    j,
                ),
        ),
        Op::AttnDecode { dtype, n_heads, n_kv_heads, head_dim, max_seq, cur_len } => attended(
            k,
            mem,
            HeadShape { n_heads, n_kv_heads, head_dim },
            dense_view(mem, dtype, max_seq),
            1,
            cur_len - 1,
        ),
        Op::AttnDecodeMixed { ptrs, n_heads, n_kv_heads, head_dim, cur_len } => attended(
            k,
            mem,
            HeadShape { n_heads, n_kv_heads, head_dim },
            mixed_view(mem, ptrs),
            1,
            cur_len - 1,
        ),
        Op::AttnPrefill { dtype, n_heads, n_kv_heads, head_dim, max_seq, chunk_len, pos_base } =>
            attended(
            k,
            mem,
            HeadShape { n_heads, n_kv_heads, head_dim },
            dense_view(mem, dtype, max_seq),
            chunk_len as int,
            pos_base as int,
        ),
        Op::AttnPrefillMixed { ptrs, n_heads, n_kv_heads, head_dim, chunk_len, pos_base } =>
            attended(
            k,
            mem,
            HeadShape { n_heads, n_kv_heads, head_dim },
            mixed_view(mem, ptrs),
            chunk_len as int,
            pos_base as int,
        ),
        Op::GdnConv1dDecode { channels, kernel_size } => {
            let before = row(mem, Buf::ConvState, 0, (kernel_size - 1) * channels);
            let x = row(mem, Buf::GdnQkv, 0, channels as int);
            put(
                put(
                    mem,
                    At { buf: Buf::GdnConvOut, offset: 0 },
                    channels as int,
                    |i: int| (k.conv)(kernel_size, before, x, i),
                ),
                At { buf: Buf::ConvState, offset: 0 },
                (kernel_size - 1) * channels,
                |i: int| (k.slide)(kernel_size, before, x, i),
            )
        },
        Op::GdnConv1dChunk { channels, kernel_size, chunk_len } => {
            let before = row(mem, Buf::ConvState, 0, (kernel_size - 1) * channels);
            let xs = |r: int| row(mem, Buf::GdnQkv, r * channels, channels as int);
            put_rows(
                mem,
                At { buf: Buf::GdnConvOut, offset: 0 },
                chunk_len as int,
                channels as int,
                |r: int, j: int|
                    (k.conv)(
                        kernel_size,
                        history(k, kernel_size, before, xs, r as nat),
                        xs(r),
                        j,
                    ),
            )
        },
        Op::GdnConv1dChunkStateUpdate { channels, kernel_size, chunk_len } => {
            let before = row(mem, Buf::ConvState, 0, (kernel_size - 1) * channels);
            let xs = |r: int| row(mem, Buf::GdnQkv, r * channels, channels as int);
            put(
                mem,
                At { buf: Buf::ConvState, offset: 0 },
                (kernel_size - 1) * channels,
                |i: int| history(k, kernel_size, before, xs, chunk_len as nat)[i],
            )
        },
        Op::GdnGate { n } => gates_after(k, mem, 1, n as int),
        Op::GdnGateChunk { heads, chunk_len } => gates_after(k, mem, chunk_len as int, heads as int),
        Op::RouteTopk { logits, out_idx, out_weight, rows, expert_count, top_k } => put_rows(
            put_rows(
                mem,
                At { buf: out_idx, offset: 0 },
                rows as int,
                top_k as int,
                |r: int, j: int|
                    (k.choice)(top_k, row(mem, logits, r * expert_count, expert_count as int), j),
            ),
            At { buf: out_weight, offset: 0 },
            rows as int,
            top_k as int,
            |r: int, j: int|
                (k.choice_weight)(
                    top_k,
                    row(mem, logits, r * expert_count, expert_count as int),
                    j,
                ),
        ),
        Op::SharedGateWrite { n } => put(
            mem,
            At { buf: Buf::MoeAccum, offset: 0 },
            n as int,
            |i: int| (k.sigmoid_mul)(mem(Buf::MoeExpertOut, i), mem(Buf::MoeSharedGateLogit, 0)),
        ),
        Op::SharedGateWriteChunk { rows, cols } => put_rows(
            mem,
            At { buf: Buf::ChunkAccum, offset: 0 },
            rows as int,
            cols as int,
            |r: int, j: int|
                (k.sigmoid_mul)(
                    mem(Buf::SharedOut, r * cols + j),
                    mem(Buf::ChunkSharedGateLogit, r),
                ),
        ),
        Op::WeightedAccum { weight, n } => put(
            mem,
            At { buf: Buf::MoeAccum, offset: 0 },
            n as int,
            |i: int|
                (k.accumulate)(
                    mem(Buf::MoeAccum, i),
                    mem(weight.buf, weight.offset as int),
                    mem(Buf::MoeExpertOut, i),
                ),
        ),
        Op::GatherRows { rows, cols } => put_rows(
            mem,
            At { buf: Buf::GroupX, offset: 0 },
            rows as int,
            cols as int,
            |r: int, j: int| mem(Buf::Xn, h.group[r].0 * cols + j),
        ),
        Op::ScatterWeightedAccum { rows, cols } => group_added(
            k,
            mem,
            h.group,
            cols as int,
            rows as nat,
        ),
        Op::UploadExpert { part, dst, expert } => with_matrix(
            mem,
            dst,
            (k.matrix)(part, expert),
        ),
        Op::WaitUpload => arrived(mem, h.flying),
        Op::StartUploadExpert { .. } | Op::MarkComputeDone => mem,
        Op::ReadLogits { .. } | Op::UploadGroup { .. } => mem,
        Op::RotSim { .. } | Op::QuantizeEvictK { .. } | Op::QuantizeEvictV { .. } => (k.other)(
            mem,
            op,
        ),
        _ => recurrence_after(k, mem, op),
    }
}

/// Write strengths and decays of `rows` tokens.
pub open spec fn gates_after<T>(k: Machine<T>, mem: Memory<T>, rows: int, heads: int) -> Memory<T> {
    put_rows(
        put_rows(
            mem,
            At { buf: Buf::GdnBeta, offset: 0 },
            rows,
            heads,
            |r: int, j: int| (k.beta)(mem(Buf::GdnBRaw, r * heads + j), j),
        ),
        At { buf: Buf::GdnG, offset: 0 },
        rows,
        heads,
        |r: int, j: int| (k.decay)(mem(Buf::GdnARaw, r * heads + j), j),
    )
}

/// What an operation of the recurrence leaves in memory.
pub open spec fn recurrence_after<T>(k: Machine<T>, mem: Memory<T>, op: Op) -> Memory<T> {
    match op {
        Op::GdnRecurrenceDecode {
            q,
            k: key,
            v,
            num_heads,
            num_k_heads,
            head_k_dim,
            head_v_dim,
        } => {
            let s = RecurShape {
                num_v_heads: num_heads,
                num_k_heads,
                head_k_dim,
                head_v_dim,
            };
            let size = num_heads * (head_k_dim * head_v_dim);
            let inputs = seq![
                row(mem, Buf::RecurState, 0, size),
                row(mem, q.buf, q.offset as int, num_k_heads * head_k_dim),
                row(mem, key.buf, key.offset as int, num_k_heads * head_k_dim),
                row(mem, v.buf, v.offset as int, num_heads * head_v_dim),
                row(mem, Buf::GdnBeta, 0, num_heads as int),
                row(mem, Buf::GdnG, 0, num_heads as int),
            ];
            put(
                put(
                    mem,
                    At { buf: Buf::GdnY, offset: 0 },
                    num_heads * head_v_dim,
                    |i: int| (k.recur_out)(s, inputs, i),
                ),
                At { buf: Buf::RecurState, offset: 0 },
                size,
                |i: int| (k.recur_state)(s, inputs, i),
            )
        },
        Op::CwPrepPoint {
            conv_out,
            beta,
            num_v_heads,
            num_k_heads,
            head_k_dim,
            conv_dim,
            key_dim,
            tile_len,
            eps,
        } => {
            let s = TileShape { num_v_heads, num_k_heads, head_k_dim, conv_dim, key_dim, tile_len };
            let x = row(mem, conv_out.buf, conv_out.offset as int, tile_len * conv_dim);
            let b = row(mem, beta.buf, beta.offset as int, tile_len * num_v_heads);
            let size = tile_len * (num_v_heads * head_k_dim);
            put(
                put(
                    put(
                        mem,
                        At { buf: Buf::CwQNorm, offset: 0 },
                        size,
                        |i: int| (k.tile_q)(s, eps, x, i),
                    ),
                    At { buf: Buf::CwKNorm, offset: 0 },
                    size,
                    |i: int| (k.tile_k)(s, eps, x, i),
                ),
                At { buf: Buf::CwKBeta, offset: 0 },
                size,
                |i: int| (k.tile_k_beta)(s, eps, x, b, i),
            )
        },
        Op::CwPrepCumsum { g, num_v_heads, tile_len } => {
            let size = tile_len * num_v_heads;
            let x = row(mem, g.buf, g.offset as int, size);
            put(
                put(
                    put(
                        mem,
                        At { buf: Buf::CwGCum, offset: 0 },
                        size,
                        |i: int| (k.tile_g)(num_v_heads, x, i),
                    ),
                    At { buf: Buf::CwCumDecayExp, offset: 0 },
                    size,
                    |i: int| (k.tile_decay)(num_v_heads, x, i),
                ),
                At { buf: Buf::CwStateDecay, offset: 0 },
                size,
                |i: int| (k.tile_state_decay)(num_v_heads, x, i),
            )
        },
        Op::CwUtBuild { wmma, num_v_heads, head_k_dim, tile_len } => {
            let size = tile_len * (num_v_heads * head_k_dim);
            let square = num_v_heads * (tile_len * tile_len);
            let q = row(mem, Buf::CwQNorm, 0, size);
            let kn = row(mem, Buf::CwKNorm, 0, size);
            let kb = row(mem, Buf::CwKBeta, 0, size);
            let g = row(mem, Buf::CwGCum, 0, tile_len * num_v_heads);
            put(
                put(
                    mem,
                    At { buf: Buf::CwKb, offset: 0 },
                    square,
                    |i: int| (k.tile_system)(kn, kb, g, i),
                ),
                At { buf: Buf::CwKq, offset: 0 },
                square,
                |i: int| (k.tile_scores)(q, kn, g, i),
            )
        },
        Op::CwTinv { num_v_heads, tile_len } => {
            let square = num_v_heads * (tile_len * tile_len);
            let x = row(mem, Buf::CwKb, 0, square);
            put(
                mem,
                At { buf: Buf::CwKb, offset: 0 },
                square,
                |i: int| (k.tile_inverse)(x, i),
            )
        },
        Op::CwUvVnew {
            conv_out,
            beta,
            num_v_heads,
            num_k_heads,
            head_k_dim,
            head_v_dim,
            conv_dim,
            key_dim,
            tile_len,
        } => {
            let s = TileShape { num_v_heads, num_k_heads, head_k_dim, conv_dim, key_dim, tile_len };
            let inputs = seq![
                row(mem, conv_out.buf, conv_out.offset as int, tile_len * conv_dim),
                row(mem, beta.buf, beta.offset as int, tile_len * num_v_heads),
                row(mem, Buf::CwKb, 0, num_v_heads * (tile_len * tile_len)),
                row(mem, Buf::CwKBeta, 0, tile_len * (num_v_heads * head_k_dim)),
                row(mem, Buf::CwCumDecayExp, 0, tile_len * num_v_heads),
                row(mem, Buf::RecurState, 0, num_v_heads * (head_k_dim * head_v_dim)),
            ];
            put(
                mem,
                At { buf: Buf::CwVNew, offset: 0 },
                tile_len * (num_v_heads * head_v_dim),
                |i: int| (k.tile_values)(s, inputs, i),
            )
        },
        Op::CwOutput { wmma, y, num_v_heads, head_k_dim, head_v_dim, tile_len } => {
            let inputs = seq![
                row(mem, Buf::CwQNorm, 0, tile_len * (num_v_heads * head_k_dim)),
                row(mem, Buf::CwCumDecayExp, 0, tile_len * num_v_heads),
                row(mem, Buf::RecurState, 0, num_v_heads * (head_k_dim * head_v_dim)),
                row(mem, Buf::CwKq, 0, num_v_heads * (tile_len * tile_len)),
                row(mem, Buf::CwVNew, 0, tile_len * (num_v_heads * head_v_dim)),
            ];
            put(
                mem,
                y,
                tile_len * (num_v_heads * head_v_dim),
                |i: int| (k.tile_out)(inputs, i),
            )
        },
        Op::CwStateUpdate { wmma, num_v_heads, head_k_dim, head_v_dim, tile_len } => {
            let size = num_v_heads * (head_k_dim * head_v_dim);
            let inputs = seq![
                row(mem, Buf::RecurState, 0, size),
                row(mem, Buf::CwKNorm, 0, tile_len * (num_v_heads * head_k_dim)),
                row(mem, Buf::CwCumDecayExp, 0, tile_len * num_v_heads),
                row(mem, Buf::CwStateDecay, 0, tile_len * num_v_heads),
                row(mem, Buf::CwVNew, 0, tile_len * (num_v_heads * head_v_dim)),
            ];
            put(
                mem,
                At { buf: Buf::RecurState, offset: 0 },
                size,
                |i: int| (k.tile_state)(inputs, i),
            )
        },
        _ => mem,
    }
}

/// What one operation leaves.
pub open spec fn after<T>(k: Machine<T>, h: Held<T>, op: Op) -> Held<T> {
    Held {
        mem: memory_after(k, h, op),
        flying: match op {
            Op::StartUploadExpert { part, dst, expert } => h.flying.push(
                (dst, (k.matrix)(part, expert)),
            ),
            Op::WaitUpload => Seq::empty(),
            _ => h.flying,
        },
        group: match op {
            Op::UploadGroup { expert, .. } => k.groups[expert as int],
            _ => h.group,
        },
        logits: match op {
            Op::ReadLogits { vocab } => row(h.mem, Buf::Logits, 0, vocab as int),
            _ => h.logits,
        },
    }
}

/// What a run of operations leaves.
pub open spec fn done<T>(k: Machine<T>, h: Held<T>, ops: Seq<Op>) -> Held<T>
    decreases ops.len(),
{
    if ops.len() == 0 {
        h
    } else {
        after(k, done(k, h, ops.drop_last()), ops.last())
    }
}

/// One operation.
pub proof fn lemma_one<T>(k: Machine<T>, h: Held<T>, ops: Seq<Op>)
    requires
        ops.len() == 1,
    ensures
        done(k, h, ops) == after(k, h, ops[0]),
{
    reveal_with_fuel(done, 2);
}

/// One more operation.
pub proof fn lemma_one_more<T>(k: Machine<T>, h: Held<T>, ops: Seq<Op>, op: Op)
    ensures
        done(k, h, ops.push(op)) == after(k, done(k, h, ops), op),
{
    assert(ops.push(op).drop_last() =~= ops);
}

/// The first operation, then the others.
pub proof fn lemma_first<T>(k: Machine<T>, h: Held<T>, ops: Seq<Op>)
    requires
        ops.len() > 0,
    ensures
        done(k, h, ops) == done(k, after(k, h, ops[0]), ops.skip(1)),
{
    lemma_in_turn(k, h, ops.take(1), ops.skip(1));
    lemma_one(k, h, ops.take(1));
    assert(ops.take(1) + ops.skip(1) =~= ops);
}

/// Two operations.
pub proof fn lemma_two<T>(k: Machine<T>, h: Held<T>, ops: Seq<Op>)
    requires
        ops.len() == 2,
    ensures
        done(k, h, ops) == after(k, after(k, h, ops[0]), ops[1]),
{
    lemma_first(k, h, ops);
    lemma_one(k, after(k, h, ops[0]), ops.skip(1));
}

/// Three operations.
pub proof fn lemma_three<T>(k: Machine<T>, h: Held<T>, ops: Seq<Op>)
    requires
        ops.len() == 3,
    ensures
        done(k, h, ops) == after(k, after(k, after(k, h, ops[0]), ops[1]), ops[2]),
{
    lemma_first(k, h, ops);
    lemma_two(k, after(k, h, ops[0]), ops.skip(1));
}

/// Four operations.
pub proof fn lemma_four<T>(k: Machine<T>, h: Held<T>, ops: Seq<Op>)
    requires
        ops.len() == 4,
    ensures
        done(k, h, ops) == after(
            k,
            after(k, after(k, after(k, h, ops[0]), ops[1]), ops[2]),
            ops[3],
        ),
{
    lemma_first(k, h, ops);
    lemma_three(k, after(k, h, ops[0]), ops.skip(1));
}

/// A buffer of the layer's key/value cache.
pub open spec fn caches(b: Buf) -> bool {
    match b {
        Buf::PlaneK | Buf::PlaneV | Buf::SinkK | Buf::SinkV => true,
        Buf::WindowK | Buf::WindowV | Buf::BulkKCodes | Buf::BulkKScales => true,
        Buf::BulkVCodes | Buf::BulkVScales => true,
        _ => false,
    }
}

/// An eviction only changes the layer's key/value cache.
pub open spec fn evicts_in_place<T>(k: Machine<T>) -> bool {
    forall|mem: Memory<T>, op: Op, b: Buf, i: int|
        !caches(b) ==> #[trigger] (k.other)(mem, op)(b, i) == mem(b, i)
}

/// An operation may change a buffer.
pub open spec fn changes(op: Op, b: Buf) -> bool {
    match op {
        Op::UploadTokens { .. } => b == Buf::TokenIds,
        Op::Embedding { .. } => b == Buf::X,
        Op::Rmsnorm { out, .. } => b == out.buf,
        Op::Matvec { out, .. } => b == out.buf,
        Op::Matmul { out, .. } => b == out.buf,
        Op::GemvF32 { out, .. } => b == out.buf,
        Op::GemmF32 { out, .. } => b == out.buf,
        Op::GemvQuant { out, .. } => b == out.buf,
        Op::GemmQuant { out, .. } => b == out.buf,
        Op::SiluMul { out, .. } => b == out.buf,
        Op::SigmoidMul { out, .. } => b == out.buf,
        Op::AddInplace { x, .. } => b == x.buf,
        Op::CopyDevice { dst, .. } => b == dst.buf,
        Op::CastF16 { dst, .. } => b == dst.buf,
        Op::ScatterKv { k_dst, v_dst, .. } => b == k_dst || b == v_dst,
        Op::ExtractHeads { dst, .. } => b == dst.buf,
        Op::RopePartial { x, .. } => b == x.buf,
        Op::AttnDecode { .. } | Op::AttnDecodeMixed { .. } => b == Buf::AttnConcat,
        Op::AttnPrefill { .. } | Op::AttnPrefillMixed { .. } => b == Buf::AttnConcat,
        Op::GdnConv1dDecode { .. } => b == Buf::GdnConvOut || b == Buf::ConvState,
        Op::GdnConv1dChunk { .. } => b == Buf::GdnConvOut,
        Op::GdnConv1dChunkStateUpdate { .. } => b == Buf::ConvState,
        Op::GdnGate { .. } | Op::GdnGateChunk { .. } => b == Buf::GdnBeta || b == Buf::GdnG,
        Op::GdnRecurrenceDecode { .. } => b == Buf::GdnY || b == Buf::RecurState,
        Op::CwPrepPoint { .. } => b == Buf::CwQNorm || b == Buf::CwKNorm || b == Buf::CwKBeta,
        Op::CwPrepCumsum { .. } => b == Buf::CwGCum || b == Buf::CwCumDecayExp || b
            == Buf::CwStateDecay,
        Op::CwUtBuild { .. } => b == Buf::CwKb || b == Buf::CwKq,
        Op::CwTinv { .. } => b == Buf::CwKb,
        Op::CwUvVnew { .. } => b == Buf::CwVNew,
        Op::CwOutput { y, .. } => b == y.buf,
        Op::CwStateUpdate { .. } => b == Buf::RecurState,
        Op::RouteTopk { out_idx, out_weight, .. } => b == out_idx || b == out_weight,
        Op::SharedGateWrite { .. } | Op::WeightedAccum { .. } => b == Buf::MoeAccum,
        Op::SharedGateWriteChunk { .. } | Op::ScatterWeightedAccum { .. } => b == Buf::ChunkAccum,
        Op::GatherRows { .. } => b == Buf::GroupX,
        Op::UploadExpert { .. } | Op::WaitUpload => takes_experts(b),
        Op::RotSim { .. } | Op::QuantizeEvictK { .. } | Op::QuantizeEvictV { .. } => true,
        _ => false,
    }
}

proof fn lemma_group_keeps<T>(
    k: Machine<T>,
    mem: Memory<T>,
    group: Seq<Assignment>,
    cols: int,
    n: nat,
    b: Buf,
    i: int,
)
    requires
        b != Buf::ChunkAccum,
    ensures
        group_added(k, mem, group, cols, n)(b, i) == mem(b, i),
    decreases n,
{
    if n > 0 {
        lemma_group_keeps(k, mem, group, cols, (n - 1) as nat, b, i);
    }
}

proof fn lemma_arrived_keeps<T>(mem: Memory<T>, flying: Seq<(At, T)>, b: Buf, i: int)
    requires
        !takes_experts(b),
    ensures
        arrived(mem, flying)(b, i) == mem(b, i),
    decreases flying.len(),
{
    if flying.len() > 0 {
        lemma_arrived_keeps(mem, flying.drop_last(), b, i);
    }
}

/// A buffer that an operation does not change.
pub proof fn lemma_keeps_element<T>(k: Machine<T>, h: Held<T>, op: Op, b: Buf, i: int)
    requires
        !changes(op, b),
    ensures
        (after(k, h, op).mem)(b, i) == (h.mem)(b, i),
{
    match op {
        Op::ScatterWeightedAccum { rows, cols } => {
            lemma_group_keeps(k, h.mem, h.group, cols as int, rows as nat, b, i);
        },
        Op::WaitUpload => {
            lemma_arrived_keeps(h.mem, h.flying, b, i);
        },
        _ => {},
    }
}

/// A buffer that an operation does not change.
pub broadcast proof fn lemma_keeps<T>(k: Machine<T>, h: Held<T>, op: Op, b: Buf, at: int, n: int)
    requires
        !changes(op, b),
    ensures
        #[trigger] row(after(k, h, op).mem, b, at, n) == row(h.mem, b, at, n),
{
    let now = row(after(k, h, op).mem, b, at, n);
    assert forall|j: int| 0 <= j < now.len() implies #[trigger] now[j] == row(
        h.mem,
        b,
        at,
        n,
    )[j] by {
        lemma_keeps_element(k, h, op, b, at + j);
    }
    assert(now =~= row(h.mem, b, at, n));
}

/// Operations in two runs.
pub proof fn lemma_in_turn<T>(k: Machine<T>, h: Held<T>, a: Seq<Op>, b: Seq<Op>)
    ensures
        done(k, h, a + b) == done(k, done(k, h, a), b),
    decreases b.len(),
{
    if b.len() == 0 {
        assert(a + b =~= a);
    } else {
        lemma_in_turn(k, h, a, b.drop_last());
        assert((a + b).drop_last() =~= a + b.drop_last());
    }
}

/// A row of several is inside what they take together.
pub proof fn lemma_row_inside(r: int, rows: int, m: int)
    requires
        0 <= r < rows,
        0 <= m,
    ensures
        0 <= r * m,
        r * m + m <= rows * m,
{
    assert(0 <= r * m && r * m + m <= rows * m) by (nonlinear_arith)
        requires
            0 <= r,
            r + 1 <= rows,
            0 <= m,
    ;
}

/// Where the numbers of a row are.
pub proof fn lemma_row_place(r: int, m: int, j: int)
    requires
        0 <= r,
        0 <= j < m,
    ensures
        (r * m + j) / m == r,
        (r * m + j) % m == j,
{
    vstd::arithmetic::div_mod::lemma_fundamental_div_mod_converse(r * m + j, m, r, j);
}

/// A row among those that were put.
pub proof fn lemma_put_row<T>(
    mem: Memory<T>,
    out: At,
    rows: int,
    m: int,
    f: spec_fn(int, int) -> T,
    r: int,
)
    requires
        0 <= r < rows,
        0 <= m,
    ensures
        row(put_rows(mem, out, rows, m, f), out.buf, out.offset + r * m, m) == Seq::new(
            m as nat,
            |j: int| f(r, j),
        ),
{
    lemma_row_inside(r, rows, m);
    let got = row(put_rows(mem, out, rows, m, f), out.buf, out.offset + r * m, m);
    assert forall|j: int| 0 <= j < m implies #[trigger] got[j] == f(r, j) by {
        lemma_row_place(r, m, j);
    }
    assert(got =~= Seq::new(m as nat, |j: int| f(r, j)));
}

/// A row of a product is the product of a row.
pub proof fn lemma_product_row<T>(
    mem: Memory<T>,
    f: spec_fn(Seq<T>, int) -> T,
    x: At,
    out: At,
    rows: int,
    m: int,
    n: int,
    r: int,
)
    requires
        0 <= r < rows,
        0 <= m,
    ensures
        row(product(mem, f, x, out, rows, m, n), out.buf, out.offset + r * m, m) == Seq::new(
            m as nat,
            |j: int| f(row(mem, x.buf, x.offset + r * n, n), j),
        ),
{
    lemma_put_row(
        mem,
        out,
        rows,
        m,
        |r: int, j: int| f(row(mem, x.buf, x.offset + r * n, n), j),
        r,
    );
    assert(row(product(mem, f, x, out, rows, m, n), out.buf, out.offset + r * m, m) =~= Seq::new(
        m as nat,
        |j: int| f(row(mem, x.buf, x.offset + r * n, n), j),
    ));
}

/// A norm of a row.
pub open spec fn normed<T>(k: Machine<T>, weight: Buf, eps: Eps, x: Seq<T>) -> Seq<T> {
    Seq::new(x.len(), |j: int| (k.norm)(weight, eps, x, j))
}

/// A projection of a row.
pub open spec fn projected<T>(k: Machine<T>, w: Linear, m: int, x: Seq<T>) -> Seq<T> {
    Seq::new(m as nat, |j: int| (k.project)(w, x, j))
}

/// Two rows put together number by number.
pub open spec fn zipped<T>(f: spec_fn(T, T) -> T, a: Seq<T>, b: Seq<T>) -> Seq<T> {
    Seq::new(a.len(), |j: int| f(a[j], b[j]))
}

/// A residual: a row and what is added to it.
pub open spec fn added<T>(k: Machine<T>, x: Seq<T>, y: Seq<T>) -> Seq<T> {
    zipped(k.add, x, y)
}

/// A token's residual.
pub open spec fn residual<T>(h: Held<T>, hidden: u32, r: int) -> Seq<T> {
    row(h.mem, Buf::X, r * hidden, hidden as int)
}

/// A row of a norm is the norm of a row.
pub proof fn lemma_norm_row<T>(
    k: Machine<T>,
    h: Held<T>,
    x: At,
    weight: Buf,
    out: At,
    rows: u32,
    cols: u32,
    eps: Eps,
    r: int,
)
    requires
        0 <= r < rows,
    ensures
        row(
            after(k, h, Op::Rmsnorm { x, weight, out, rows, cols, eps }).mem,
            out.buf,
            out.offset + r * cols,
            cols as int,
        ) == normed(k, weight, eps, row(h.mem, x.buf, x.offset + r * cols, cols as int)),
{
    let f = |s: Seq<T>, j: int| (k.norm)(weight, eps, s, j);
    lemma_product_row(h.mem, f, x, out, rows as int, cols as int, cols as int, r);
    assert(row(
        after(k, h, Op::Rmsnorm { x, weight, out, rows, cols, eps }).mem,
        out.buf,
        out.offset + r * cols,
        cols as int,
    ) =~= normed(k, weight, eps, row(h.mem, x.buf, x.offset + r * cols, cols as int)));
}

/// A row of a chunk's projection is the projection of a row.
pub proof fn lemma_matmul_row<T>(
    k: Machine<T>,
    h: Held<T>,
    w: Linear,
    x: At,
    out: At,
    rows: u32,
    m: u32,
    n: u32,
    r: int,
)
    requires
        0 <= r < rows,
    ensures
        row(
            after(k, h, Op::Matmul { w, x, out, rows, m, n }).mem,
            out.buf,
            out.offset + r * m,
            m as int,
        ) == projected(k, w, m as int, row(h.mem, x.buf, x.offset + r * n, n as int)),
{
    let f = |s: Seq<T>, j: int| (k.project)(w, s, j);
    lemma_product_row(h.mem, f, x, out, rows as int, m as int, n as int, r);
    assert(row(
        after(k, h, Op::Matmul { w, x, out, rows, m, n }).mem,
        out.buf,
        out.offset + r * m,
        m as int,
    ) =~= projected(k, w, m as int, row(h.mem, x.buf, x.offset + r * n, n as int)));
}

/// The projection of one row.
pub proof fn lemma_matvec_row<T>(
    k: Machine<T>,
    h: Held<T>,
    w: Linear,
    x: At,
    out: At,
    m: u32,
    n: u32,
)
    ensures
        row(
            after(k, h, Op::Matvec { w, x, out, m, n }).mem,
            out.buf,
            out.offset as int,
            m as int,
        ) == projected(k, w, m as int, row(h.mem, x.buf, x.offset as int, n as int)),
{
    let f = |s: Seq<T>, j: int| (k.project)(w, s, j);
    lemma_product_row(h.mem, f, x, out, 1, m as int, n as int, 0);
    assert(row(
        after(k, h, Op::Matvec { w, x, out, m, n }).mem,
        out.buf,
        out.offset as int,
        m as int,
    ) =~= projected(k, w, m as int, row(h.mem, x.buf, x.offset as int, n as int)));
}

/// A row of numbers put together one by one.
pub proof fn lemma_silu_row<T>(
    k: Machine<T>,
    h: Held<T>,
    gate: At,
    up: At,
    out: At,
    n: u32,
    from: int,
    m: int,
)
    requires
        0 <= from,
        0 <= m,
        from + m <= n,
    ensures
        row(
            after(k, h, Op::SiluMul { gate, up, out, n }).mem,
            out.buf,
            out.offset + from,
            m,
        ) == zipped(
            k.silu_mul,
            row(h.mem, gate.buf, gate.offset + from, m),
            row(h.mem, up.buf, up.offset + from, m),
        ),
{
    assert(row(
        after(k, h, Op::SiluMul { gate, up, out, n }).mem,
        out.buf,
        out.offset + from,
        m,
    ) =~= zipped(
        k.silu_mul,
        row(h.mem, gate.buf, gate.offset + from, m),
        row(h.mem, up.buf, up.offset + from, m),
    ));
}

/// The same of a residual.
pub proof fn lemma_add_row<T>(
    k: Machine<T>,
    h: Held<T>,
    x: At,
    y: At,
    n: u32,
    from: int,
    m: int,
)
    requires
        0 <= from,
        0 <= m,
        from + m <= n,
    ensures
        row(after(k, h, Op::AddInplace { x, y, n }).mem, x.buf, x.offset + from, m) == added(
            k,
            row(h.mem, x.buf, x.offset + from, m),
            row(h.mem, y.buf, y.offset + from, m),
        ),
{
    assert(row(after(k, h, Op::AddInplace { x, y, n }).mem, x.buf, x.offset + from, m) =~= added(
        k,
        row(h.mem, x.buf, x.offset + from, m),
        row(h.mem, y.buf, y.offset + from, m),
    ));
}

} // verus!
