//! The gated delta-rule recurrence over a chunk, tile by tile. Every tile
//! runs the same pipeline, and the recurrence state carries over from each
//! tile to the next.

use super::plan::{At, Buf, Eps, Op};
use crate::math::{ceil_div, least, lemma_ceil_div, min_u32};
use crate::qwen35::config::GdnConfig;
use vstd::prelude::*;

verus! {

/// Most tokens in one tile: the triangular system of a tile has to fit the
/// device's local memory.
pub const GDN_RECUR_TILE: u32 = 128;

/// Largest head width the staged matrix-core kernels can hold.
pub const LDS_MAX_DIM: u32 = 128;

/// Which stages run on the matrix cores.
#[derive(Debug, Clone, Copy, PartialEq, Eq, Structural)]
pub struct WmmaDispatch {
    pub state: bool,
    pub output: bool,
    pub ut_build: bool,
}

/// The matrix cores work in tiles of 16; the staged kernels would leave part
/// of wider heads uncomputed.
pub open spec fn dispatch_for(g: GdnConfig) -> WmmaDispatch {
    let both = g.head_k_dim % 16 == 0 && g.head_v_dim % 16 == 0;
    WmmaDispatch {
        state: both,
        output: both && g.head_k_dim <= LDS_MAX_DIM && g.head_v_dim <= LDS_MAX_DIM,
        ut_build: g.head_k_dim % 16 == 0 && g.head_k_dim <= LDS_MAX_DIM,
    }
}

/// First token of a tile.
pub open spec fn tile_start(k: int) -> int {
    k * GDN_RECUR_TILE
}

/// Tokens in a tile of a chunk.
pub open spec fn tile_len(chunk_len: int, k: int) -> int {
    least(chunk_len - tile_start(k), GDN_RECUR_TILE as int)
}

/// Tiles of a chunk.
pub open spec fn tile_count(chunk_len: int) -> int {
    ceil_div(chunk_len, GDN_RECUR_TILE as int)
}

/// The tiles of a chunk follow one another without gap or overlap, none is
/// empty or too long, and together they are the chunk.
pub proof fn law_tiles_cover_the_chunk(chunk_len: int, k: int)
    requires
        0 <= k < tile_count(chunk_len),
        0 <= chunk_len,
    ensures
        1 <= tile_len(chunk_len, k) <= GDN_RECUR_TILE,
        k + 1 < tile_count(chunk_len) ==> tile_start(k) + tile_len(chunk_len, k) == tile_start(
            k + 1,
        ),
        k + 1 == tile_count(chunk_len) ==> tile_start(k) + tile_len(chunk_len, k) == chunk_len,
{
    lemma_ceil_div(chunk_len, GDN_RECUR_TILE as int);
}

/// The pipeline of one tile.
pub open spec fn tile_ops(g: GdnConfig, d: WmmaDispatch, from: int, len: u32) -> Seq<Op> {
    let conv_out = At { buf: Buf::GdnConvOut, offset: (from * g.conv_dim) as usize };
    let beta = At { buf: Buf::GdnBeta, offset: (from * g.num_v_heads) as usize };
    seq![
        Op::CwPrepPoint {
            conv_out,
            beta,
            num_v_heads: g.num_v_heads,
            num_k_heads: g.num_k_heads,
            head_k_dim: g.head_k_dim,
            conv_dim: g.conv_dim,
            key_dim: g.key_dim,
            tile_len: len,
            eps: Eps::Millionth { dim: 1 },
        },
        Op::CwPrepCumsum {
            g: At { buf: Buf::GdnG, offset: (from * g.num_v_heads) as usize },
            num_v_heads: g.num_v_heads,
            tile_len: len,
        },
        Op::CwUtBuild {
            wmma: d.ut_build,
            num_v_heads: g.num_v_heads,
            head_k_dim: g.head_k_dim,
            tile_len: len,
        },
        Op::CwTinv { num_v_heads: g.num_v_heads, tile_len: len },
        Op::CwUvVnew {
            conv_out,
            beta,
            num_v_heads: g.num_v_heads,
            num_k_heads: g.num_k_heads,
            head_k_dim: g.head_k_dim,
            head_v_dim: g.head_v_dim,
            conv_dim: g.conv_dim,
            key_dim: g.key_dim,
            tile_len: len,
        },
        Op::CwOutput {
            wmma: d.output,
            y: At { buf: Buf::GdnY, offset: (from * g.value_dim) as usize },
            num_v_heads: g.num_v_heads,
            head_k_dim: g.head_k_dim,
            head_v_dim: g.head_v_dim,
            tile_len: len,
        },
        Op::CwStateUpdate {
            wmma: d.state,
            num_v_heads: g.num_v_heads,
            head_k_dim: g.head_k_dim,
            head_v_dim: g.head_v_dim,
            tile_len: len,
        },
    ]
}

/// The first `k` tiles of a chunk.
pub open spec fn tiles_ops(g: GdnConfig, chunk_len: int, k: nat) -> Seq<Op>
    decreases k,
{
    if k == 0 {
        Seq::empty()
    } else {
        tiles_ops(g, chunk_len, (k - 1) as nat) + tile_ops(
            g,
            dispatch_for(g),
            tile_start(k - 1),
            tile_len(chunk_len, k - 1) as u32,
        )
    }
}

/// The recurrence of a whole chunk.
pub open spec fn chunkwise_ops(g: GdnConfig, chunk_len: int) -> Seq<Op> {
    tiles_ops(g, chunk_len, tile_count(chunk_len) as nat)
}

/// The sizes of a chunk's recurrence fit 32 bits.
pub open spec fn chunkwise_fits(g: GdnConfig, chunk_len: int) -> bool {
    &&& chunk_len * g.conv_dim <= u32::MAX
    &&& chunk_len * g.num_v_heads <= u32::MAX
    &&& chunk_len * g.value_dim <= u32::MAX
}

/// A width that the matrix cores compute whole: tiles of 16, of which the
/// staged kernels hold eight.
pub open spec fn whole_tiles(width: u32, staged: bool) -> bool {
    exists|n: int| width == #[trigger] (16 * n) && (staged ==> n <= 8)
}

/// A stage runs on the matrix cores exactly if they compute all of the heads
/// it works on.
pub open spec fn cores_fit(op: Op) -> bool {
    match op {
        Op::CwUtBuild { wmma, head_k_dim, .. } => wmma <==> whole_tiles(head_k_dim, true),
        Op::CwOutput { wmma, head_k_dim, head_v_dim, .. } => wmma <==> whole_tiles(
            head_k_dim,
            true,
        ) && whole_tiles(head_v_dim, true),
        Op::CwStateUpdate { wmma, head_k_dim, head_v_dim, .. } => wmma <==> whole_tiles(
            head_k_dim,
            false,
        ) && whole_tiles(head_v_dim, false),
        _ => true,
    }
}

proof fn lemma_whole_tiles(width: u32)
    ensures
        whole_tiles(width, false) <==> width % 16 == 0,
        whole_tiles(width, true) <==> width % 16 == 0 && width <= 128,
{
    if width % 16 == 0 {
        let n = width as int / 16;
        assert(width == 16 * n);
    }
}

/// No stage of a chunk's recurrence leaves part of a head uncomputed, and the
/// matrix cores run wherever they can.
pub proof fn law_matrix_cores_compute_whole_heads(g: GdnConfig, chunk_len: int, k: nat, i: int)
    requires
        0 <= i < tiles_ops(g, chunk_len, k).len(),
    ensures
        cores_fit(tiles_ops(g, chunk_len, k)[i]),
    decreases k,
{
    lemma_whole_tiles(g.head_k_dim);
    lemma_whole_tiles(g.head_v_dim);
    let before = tiles_ops(g, chunk_len, (k - 1) as nat);
    if i < before.len() {
        law_matrix_cores_compute_whole_heads(g, chunk_len, (k - 1) as nat, i);
    } else {
        let d = dispatch_for(g);
        let ops = tile_ops(g, d, tile_start(k - 1), tile_len(chunk_len, k - 1) as u32);
        let j = i - before.len();
        assert(tiles_ops(g, chunk_len, k)[i] == ops[j]);
        assert(j == 0 || j == 1 || j == 2 || j == 3 || j == 4 || j == 5 || j == 6);
    }
}

fn run_tile(ops: &mut Vec<Op>, d: WmmaDispatch, g: &GdnConfig, from: u32, len: u32)
    requires
        from * g.conv_dim <= u32::MAX,
        from * g.num_v_heads <= u32::MAX,
        from * g.value_dim <= u32::MAX,
    ensures
        final(ops)@ == old(ops)@ + tile_ops(*g, d, from as int, len),
{
    let ghost before = ops@;
    let conv_out = At { buf: Buf::GdnConvOut, offset: (from * g.conv_dim) as usize };
    let beta = At { buf: Buf::GdnBeta, offset: (from * g.num_v_heads) as usize };
    let gate = At { buf: Buf::GdnG, offset: (from * g.num_v_heads) as usize };
    let y = At { buf: Buf::GdnY, offset: (from * g.value_dim) as usize };
    ops.push(
        Op::CwPrepPoint {
            conv_out,
            beta,
            num_v_heads: g.num_v_heads,
            num_k_heads: g.num_k_heads,
            head_k_dim: g.head_k_dim,
            conv_dim: g.conv_dim,
            key_dim: g.key_dim,
            tile_len: len,
            eps: Eps::Millionth { dim: 1 },
        },
    );
    ops.push(Op::CwPrepCumsum { g: gate, num_v_heads: g.num_v_heads, tile_len: len });
    ops.push(
        Op::CwUtBuild {
            wmma: d.ut_build,
            num_v_heads: g.num_v_heads,
            head_k_dim: g.head_k_dim,
            tile_len: len,
        },
    );
    ops.push(Op::CwTinv { num_v_heads: g.num_v_heads, tile_len: len });
    ops.push(
        Op::CwUvVnew {
            conv_out,
            beta,
            num_v_heads: g.num_v_heads,
            num_k_heads: g.num_k_heads,
            head_k_dim: g.head_k_dim,
            head_v_dim: g.head_v_dim,
            conv_dim: g.conv_dim,
            key_dim: g.key_dim,
            tile_len: len,
        },
    );
    ops.push(
        Op::CwOutput {
            wmma: d.output,
            y,
            num_v_heads: g.num_v_heads,
            head_k_dim: g.head_k_dim,
            head_v_dim: g.head_v_dim,
            tile_len: len,
        },
    );
    ops.push(
        Op::CwStateUpdate {
            wmma: d.state,
            num_v_heads: g.num_v_heads,
            head_k_dim: g.head_k_dim,
            head_v_dim: g.head_v_dim,
            tile_len: len,
        },
    );
    proof {
        assert(ops@ =~= before + tile_ops(*g, d, from as int, len));
    }
}

/// Plans the recurrence of `chunk_len` tokens.
pub fn gdn_chunkwise_step(g: &GdnConfig, chunk_len: u32) -> (r: Vec<Op>)
    requires
        chunkwise_fits(*g, chunk_len as int),
    ensures
        r@ == chunkwise_ops(*g, chunk_len as int),
{
    let both: bool = g.head_k_dim % 16 == 0 && g.head_v_dim % 16 == 0;
    let dispatch = WmmaDispatch {
        state: both,
        output: both && g.head_k_dim <= LDS_MAX_DIM && g.head_v_dim <= LDS_MAX_DIM,
        ut_build: g.head_k_dim % 16 == 0 && g.head_k_dim <= LDS_MAX_DIM,
    };
    let mut ops: Vec<Op> = Vec::new();
    let mut from: u32 = 0;
    let ghost mut k: int = 0;
    proof {
        lemma_ceil_div(chunk_len as int, GDN_RECUR_TILE as int);
        assert(ops@ =~= tiles_ops(*g, chunk_len as int, 0));
    }
    while from < chunk_len
        invariant
            chunkwise_fits(*g, chunk_len as int),
            dispatch == dispatch_for(*g),
            0 <= k <= tile_count(chunk_len as int),
            from == least(tile_start(k), chunk_len as int),
            from < chunk_len <==> k < tile_count(chunk_len as int),
            ops@ == tiles_ops(*g, chunk_len as int, k as nat),
        decreases chunk_len - from,
    {
        let len: u32 = min_u32(chunk_len - from, GDN_RECUR_TILE);
        proof {
            law_tiles_cover_the_chunk(chunk_len as int, k);
            lemma_part(from as int, chunk_len as int, g.conv_dim as int);
            lemma_part(from as int, chunk_len as int, g.num_v_heads as int);
            lemma_part(from as int, chunk_len as int, g.value_dim as int);
        }
        run_tile(&mut ops, dispatch, g, from, len);
        from = from + len;
        proof {
            k = k + 1;
            lemma_ceil_div(chunk_len as int, GDN_RECUR_TILE as int);
        }
    }
    ops
}

proof fn lemma_part(a: int, b: int, w: int)
    requires
        0 <= a <= b,
        0 <= w,
    ensures
        0 <= a * w <= b * w,
{
    assert(0 <= a * w <= b * w) by (nonlinear_arith)
        requires
            0 <= a <= b,
            0 <= w,
    ;
}

} // verus!
