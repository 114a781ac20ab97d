//! Launch shapes of the device kernels: how many blocks of how many threads,
//! and how much shared memory, each of them is started with.

use crate::math::{ceil_div, div_ceil, greatest, lemma_ceil_div, max_u32};
use vstd::prelude::*;

verus! {

/// Threads of a block in kernels with a thread an element.
pub const LINEAR_BLOCK: u32 = 256;

/// Threads of a block in the router kernel.
pub const MOE_ROUTE_BLOCK: u32 = 256;

/// Most experts the router kernel's shared arrays hold.
pub const MOE_MAX_EXPERTS: u32 = 1024;

/// Edge of an output tile in the single-precision matrix product.
pub const GEMM_F32_TILE: u32 = 16;

/// Columns a block works on at a time when the triangular system is built.
pub const UT_BUILD_J_PER_BLOCK: u32 = 8;

/// Cached positions a block of the mixed decode kernel stages at a time.
pub const MIXED_TILE_T: u32 = 8;

/// Bytes of one operand tile in shared memory: 128 by 64 halves.
pub const LDS_TILE_BYTES: u32 = 16384;

/// Threads of a wave.
pub const WAVE: u32 = 32;

/// How a kernel is started.
#[derive(Debug, Clone, Copy, PartialEq, Eq)]
pub struct LaunchConfig {
    pub grid: (u32, u32, u32),
    pub block: (u32, u32, u32),
    pub shared_mem_bytes: u32,
}

/// A launch with a thread an element.
pub open spec fn linear_launch(total: int) -> LaunchConfig {
    LaunchConfig {
        grid: (ceil_div(total, LINEAR_BLOCK as int) as u32, 1, 1),
        block: (LINEAR_BLOCK, 1, 1),
        shared_mem_bytes: 0,
    }
}

/// A launch without shared memory.
pub open spec fn plain_launch(grid: (u32, u32, u32), block: (u32, u32, u32)) -> LaunchConfig {
    LaunchConfig { grid, block, shared_mem_bytes: 0 }
}

/// Every element has its thread, and less than a block of threads is left
/// over.
pub proof fn law_linear_launch_covers_every_element(total: int)
    requires
        0 <= total <= u32::MAX,
    ensures
        total <= linear_launch(total).grid.0 * linear_launch(total).block.0 < total + LINEAR_BLOCK,
{
    lemma_ceil_div(total, LINEAR_BLOCK as int);
    let n = ceil_div(total, LINEAR_BLOCK as int);
    assert(0 <= n <= u32::MAX) by (nonlinear_arith)
        requires
            n * LINEAR_BLOCK < total + LINEAR_BLOCK,
            total <= n * LINEAR_BLOCK,
            0 <= total <= u32::MAX,
            LINEAR_BLOCK == 256,
    ;
}

/// The tiles of a matrix product cover every row and every column.
pub proof fn law_tiles_cover_the_product(rows: int, m: int)
    requires
        0 <= rows <= u32::MAX,
        0 <= m <= u32::MAX,
    ensures
        m <= ceil_div(m, GEMM_F32_TILE as int) * GEMM_F32_TILE,
        rows <= ceil_div(rows, GEMM_F32_TILE as int) * GEMM_F32_TILE,
{
    lemma_ceil_div(m, GEMM_F32_TILE as int);
    lemma_ceil_div(rows, GEMM_F32_TILE as int);
}

/// A launch with a thread an element.
pub fn linear(total: u32) -> (r: LaunchConfig)
    ensures
        r == linear_launch(total as int),
{
    LaunchConfig {
        grid: (div_ceil(total, LINEAR_BLOCK), 1, 1),
        block: (LINEAR_BLOCK, 1, 1),
        shared_mem_bytes: 0,
    }
}

/// A launch without shared memory.
fn plain(grid: (u32, u32, u32), block: (u32, u32, u32)) -> (r: LaunchConfig)
    ensures
        r == plain_launch(grid, block),
{
    LaunchConfig { grid, block, shared_mem_bytes: 0 }
}

/// Bytes of a single-precision value.
pub fn size_of_f32() -> (r: u32)
    ensures
        r == 4,
{
    4
}

/// Tiles of sixteen that cover `n`.
pub fn ceil_div16(n: u32) -> (r: u32)
    ensures
        r == ceil_div(n as int, 16),
{
    div_ceil(n, 16)
}

/// Which of two kernels reads or writes the values of the bulk region.
#[derive(Debug, Clone, Copy, PartialEq, Eq, Structural)]
pub enum ValueKernel {
    Q8,
    Q4,
}

/// The kernel for values of that many bits.
pub open spec fn value_kernel_of(v_bits: u8) -> ValueKernel {
    if v_bits == 8 {
        ValueKernel::Q8
    } else {
        ValueKernel::Q4
    }
}

/// The kernel for values of that many bits.
pub fn value_kernel(v_bits: u8) -> (r: ValueKernel)
    ensures
        r == value_kernel_of(v_bits),
{
    if v_bits == 8 {
        ValueKernel::Q8
    } else {
        ValueKernel::Q4
    }
}

/// Kernels of the single-token pass.
#[derive(Debug, Clone, Copy, PartialEq, Eq, Structural)]
pub struct HybridKernels;

impl HybridKernels {
    /// A thread for every pair of rotated components.
    pub fn rope_partial(&self, tokens: u32, heads: u32, rot_dim: u32) -> (r: LaunchConfig)
        requires
            tokens * heads <= u32::MAX,
            tokens * heads * (rot_dim / 2) <= u32::MAX,
        ensures
            r == linear_launch(tokens * heads * (rot_dim / 2)),
    {
        linear(tokens * heads * (rot_dim / 2))
    }

    /// A thread a channel.
    pub fn gdn_conv1d_decode(&self, channels: u32) -> (r: LaunchConfig)
        ensures
            r == linear_launch(channels as int),
    {
        linear(channels)
    }

    /// A thread a head.
    pub fn gdn_gate(&self, n: u32) -> (r: LaunchConfig)
        ensures
            r == linear_launch(n as int),
    {
        linear(n)
    }

    /// A block a head, with both vectors of both sides staged.
    pub fn gdn_recurrence_decode(
        &self,
        num_heads: u32,
        head_k_dim: u32,
        head_v_dim: u32,
    ) -> (r: LaunchConfig)
        requires
            8 * (head_k_dim + head_v_dim) <= u32::MAX,
        ensures
            r == (LaunchConfig {
                grid: (num_heads, 1, 1),
                block: (greatest(head_k_dim as int, head_v_dim as int) as u32, 1, 1),
                shared_mem_bytes: (2 * (head_k_dim + head_v_dim) * 4) as u32,
            }),
    {
        LaunchConfig {
            grid: (num_heads, 1, 1),
            block: (max_u32(head_k_dim, head_v_dim), 1, 1),
            shared_mem_bytes: 2 * (head_k_dim + head_v_dim) * size_of_f32(),
        }
    }

    /// A thread an element.
    pub fn sigmoid_mul(&self, n: u32) -> (r: LaunchConfig)
        ensures
            r == linear_launch(n as int),
    {
        linear(n)
    }
}

/// Kernels of a chunk's pass.
#[derive(Debug, Clone, Copy, PartialEq, Eq, Structural)]
pub struct ChunkKernels;

impl ChunkKernels {
    /// A thread a channel; each goes through the chunk's tokens.
    pub fn gdn_conv1d_chunk(&self, channels: u32) -> (r: LaunchConfig)
        ensures
            r == linear_launch(channels as int),
    {
        linear(channels)
    }

    /// A thread an element of the compact heads.
    pub fn extract_heads(&self, tokens: u32, heads: u32, head_dim: u32) -> (r: LaunchConfig)
        requires
            tokens * heads <= u32::MAX,
            tokens * heads * head_dim <= u32::MAX,
        ensures
            r == linear_launch(tokens * heads * head_dim),
    {
        linear(tokens * heads * head_dim)
    }

    /// A thread an element of the chunk's keys.
    pub fn scatter_kv_chunk(&self, n_kv_heads: u32, head_dim: u32, chunk_len: u32) -> (r:
        LaunchConfig)
        requires
            chunk_len * n_kv_heads <= u32::MAX,
            chunk_len * n_kv_heads * head_dim <= u32::MAX,
        ensures
            r == linear_launch(chunk_len * n_kv_heads * head_dim),
    {
        linear(chunk_len * n_kv_heads * head_dim)
    }

    /// The same shape for a half-precision plane.
    pub fn scatter_kv_chunk_f16(&self, n_kv_heads: u32, head_dim: u32, chunk_len: u32) -> (r:
        LaunchConfig)
        requires
            chunk_len * n_kv_heads <= u32::MAX,
            chunk_len * n_kv_heads * head_dim <= u32::MAX,
        ensures
            r == linear_launch(chunk_len * n_kv_heads * head_dim),
    {
        linear(chunk_len * n_kv_heads * head_dim)
    }

    /// A thread a head of every token.
    pub fn gdn_gate_chunk(&self, heads: u32, chunk_len: u32) -> (r: LaunchConfig)
        requires
            heads * chunk_len <= u32::MAX,
        ensures
            r == linear_launch(heads * chunk_len),
    {
        linear(heads * chunk_len)
    }
}

/// Kernels of the chunkwise recurrence.
#[derive(Debug, Clone, Copy, PartialEq, Eq, Structural)]
pub struct GdnChunkwiseKernels;

impl GdnChunkwiseKernels {
    /// A wave a head and token.
    pub fn prep_point(&self, num_v_heads: u32, tile_len: u32) -> (r: LaunchConfig)
        ensures
            r == plain_launch((num_v_heads, tile_len, 1), (WAVE, 1, 1)),
    {
        plain((num_v_heads, tile_len, 1), (WAVE, 1, 1))
    }

    /// A block a head, with exactly a thread a token.
    pub fn prep_cumsum(&self, num_v_heads: u32, tile_len: u32) -> (r: LaunchConfig)
        requires
            4 * tile_len <= u32::MAX,
        ensures
            r == (LaunchConfig {
                grid: (num_v_heads, 1, 1),
                block: (tile_len, 1, 1),
                shared_mem_bytes: (tile_len * 4) as u32,
            }),
    {
        LaunchConfig {
            grid: (num_v_heads, 1, 1),
            block: (tile_len, 1, 1),
            shared_mem_bytes: tile_len * size_of_f32(),
        }
    }

    /// A wave a column, a few columns a block.
    pub fn ut_build(&self, num_v_heads: u32, tile_len: u32) -> (r: LaunchConfig)
        ensures
            r == plain_launch((num_v_heads, tile_len, 1), (WAVE, UT_BUILD_J_PER_BLOCK, 1)),
    {
        plain((num_v_heads, tile_len, 1), (WAVE, UT_BUILD_J_PER_BLOCK, 1))
    }

    /// A block a head, with the whole matrix in shared memory.
    pub fn tinv(&self, num_v_heads: u32, tile_len: u32) -> (r: LaunchConfig)
        requires
            tile_len * tile_len * 4 <= u32::MAX,
        ensures
            r == (LaunchConfig {
                grid: (num_v_heads, 1, 1),
                block: (tile_len, 1, 1),
                shared_mem_bytes: (tile_len * tile_len * 4) as u32,
            }),
    {
        LaunchConfig {
            grid: (num_v_heads, 1, 1),
            block: (tile_len, 1, 1),
            shared_mem_bytes: tile_len * tile_len * size_of_f32(),
        }
    }

    /// A block a head and token, with a row of keys in shared memory.
    pub fn uv_vnew(
        &self,
        num_v_heads: u32,
        head_k_dim: u32,
        head_v_dim: u32,
        tile_len: u32,
    ) -> (r: LaunchConfig)
        requires
            4 * head_k_dim <= u32::MAX,
        ensures
            r == (LaunchConfig {
                grid: (num_v_heads, tile_len, 1),
                block: (greatest(head_k_dim as int, head_v_dim as int) as u32, 1, 1),
                shared_mem_bytes: (head_k_dim * 4) as u32,
            }),
    {
        LaunchConfig {
            grid: (num_v_heads, tile_len, 1),
            block: (max_u32(head_k_dim, head_v_dim), 1, 1),
            shared_mem_bytes: head_k_dim * size_of_f32(),
        }
    }

    /// A block a head and token, with a thread a value.
    pub fn output(&self, num_v_heads: u32, head_v_dim: u32, tile_len: u32) -> (r: LaunchConfig)
        ensures
            r == plain_launch((num_v_heads, tile_len, 1), (head_v_dim, 1, 1)),
    {
        plain((num_v_heads, tile_len, 1), (head_v_dim, 1, 1))
    }

    /// A block a head and key row, with a thread a value.
    pub fn state_update(&self, num_v_heads: u32, head_k_dim: u32, head_v_dim: u32) -> (r:
        LaunchConfig)
        ensures
            r == plain_launch((num_v_heads, head_k_dim, 1), (head_v_dim, 1, 1)),
    {
        plain((num_v_heads, head_k_dim, 1), (head_v_dim, 1, 1))
    }
}

/// Matrix-unit kernels of the chunkwise recurrence.
#[derive(Debug, Clone, Copy, PartialEq, Eq, Structural)]
pub struct GdnChunkwiseWmmaKernels;

impl GdnChunkwiseWmmaKernels {
    /// A wave a tile of the state.
    pub fn state_update(&self, num_v_heads: u32, head_k_dim: u32, head_v_dim: u32) -> (r:
        LaunchConfig)
        ensures
            r == plain_launch(
                (
                    num_v_heads,
                    ceil_div(head_k_dim as int, 16) as u32,
                    ceil_div(head_v_dim as int, 16) as u32,
                ),
                (WAVE, 1, 1),
            ),
    {
        plain((num_v_heads, ceil_div16(head_k_dim), ceil_div16(head_v_dim)), (WAVE, 1, 1))
    }

    /// A block a head, with two operands staged at a time.
    pub fn output_lds(&self, num_v_heads: u32) -> (r: LaunchConfig)
        ensures
            r == (LaunchConfig {
                grid: (num_v_heads, 1, 1),
                block: (WAVE, 16, 1),
                shared_mem_bytes: (2 * LDS_TILE_BYTES) as u32,
            }),
    {
        LaunchConfig {
            grid: (num_v_heads, 1, 1),
            block: (WAVE, 16, 1),
            shared_mem_bytes: 2 * LDS_TILE_BYTES,
        }
    }

    /// A block a head, with three operands staged at a time.
    pub fn ut_build_lds(&self, num_v_heads: u32) -> (r: LaunchConfig)
        ensures
            r == (LaunchConfig {
                grid: (num_v_heads, 1, 1),
                block: (WAVE, 16, 1),
                shared_mem_bytes: (3 * LDS_TILE_BYTES) as u32,
            }),
    {
        LaunchConfig {
            grid: (num_v_heads, 1, 1),
            block: (WAVE, 16, 1),
            shared_mem_bytes: 3 * LDS_TILE_BYTES,
        }
    }
}

/// Kernels of the mixed cache.
#[derive(Debug, Clone, Copy, PartialEq, Eq, Structural)]
pub struct MixedKernels;

impl MixedKernels {
    /// A block a head, with a thread a channel.
    pub fn quantize_evict_k(&self, n_kv_heads: u32, head_dim: u32) -> (r: LaunchConfig)
        ensures
            r == plain_launch((n_kv_heads, 1, 1), (head_dim, 1, 1)),
    {
        plain((n_kv_heads, 1, 1), (head_dim, 1, 1))
    }

    /// A wave a head and position of the window.
    pub fn quantize_evict_v(&self, v_bits: u8, n_kv_heads: u32, window_len: u32) -> (r: (
        ValueKernel,
        LaunchConfig,
    ))
        ensures
            r.0 == value_kernel_of(v_bits),
            r.1 == plain_launch((n_kv_heads, window_len, 1), (WAVE, 1, 1)),
    {
        (value_kernel(v_bits), plain((n_kv_heads, window_len, 1), (WAVE, 1, 1)))
    }

    /// A block a head and split, with a wave a query head of its group.
    pub fn attn_decode_partial_mixed(
        &self,
        v_bits: u8,
        n_kv_heads: u32,
        group: u32,
        head_dim: u32,
        n_splits: u32,
    ) -> (r: (ValueKernel, LaunchConfig))
        requires
            64 * head_dim <= u32::MAX,
        ensures
            r.0 == value_kernel_of(v_bits),
            r.1 == (LaunchConfig {
                grid: (n_kv_heads, n_splits, 1),
                block: (WAVE, group, 1),
                shared_mem_bytes: (2 * MIXED_TILE_T * head_dim * 4) as u32,
            }),
    {
        let cfg = LaunchConfig {
            grid: (n_kv_heads, n_splits, 1),
            block: (WAVE, group, 1),
            shared_mem_bytes: 2 * MIXED_TILE_T * head_dim * size_of_f32(),
        };
        (value_kernel(v_bits), cfg)
    }
}

/// How the positions of a prompt's attention are tiled and split.
#[derive(Debug, Clone, Copy, PartialEq, Eq, Structural)]
pub struct FlashShape {
    /// Rows of a tile.
    pub br: u32,
    /// Rows of a tile in the wide kernel.
    pub wide_br: u32,
    /// Cached positions a block stages at a time.
    pub bc: u32,
    pub n_splits: u32,
}

/// How a chunk's attention over the mixed cache is started: a partial pass
/// over every split, then the reduction.
#[derive(Debug, Clone, Copy, PartialEq, Eq)]
pub struct FlashLaunch {
    pub values: ValueKernel,
    /// The kernel with tall tiles, not the narrow one.
    pub wide: bool,
    pub partial: LaunchConfig,
    pub reduce: LaunchConfig,
}

/// Kernels of a chunk's attention over the mixed cache.
#[derive(Debug, Clone, Copy, PartialEq, Eq, Structural)]
pub struct FlashPrefillMixedKernels;

impl FlashPrefillMixedKernels {
    /// A block a head, row tile and split; then a block a token and query
    /// head.
    pub fn attn_prefill_flash_mixed(
        &self,
        v_bits: u8,
        n_heads: u32,
        n_kv_heads: u32,
        head_dim: u32,
        chunk_len: u32,
        shape: FlashShape,
    ) -> (r: FlashLaunch)
        requires
            n_kv_heads > 0,
            shape.br > 0,
            2 * shape.bc <= u32::MAX,
            2 * shape.bc * head_dim * 4 <= u32::MAX,
        ensures
            r.values == value_kernel_of(v_bits),
            r.wide == (shape.br == shape.wide_br),
            r.partial == (LaunchConfig {
                grid: (
                    n_kv_heads,
                    ceil_div(chunk_len as int, shape.br as int) as u32,
                    shape.n_splits,
                ),
                block: (WAVE, n_heads / n_kv_heads, shape.br),
                shared_mem_bytes: (2 * shape.bc * head_dim * 4) as u32,
            }),
            r.reduce == plain_launch((chunk_len, n_heads, 1), (head_dim, 1, 1)),
    {
        let row_tiles: u32 = div_ceil(chunk_len, shape.br);
        let partial = LaunchConfig {
            grid: (n_kv_heads, row_tiles, shape.n_splits),
            block: (WAVE, n_heads / n_kv_heads, shape.br),
            shared_mem_bytes: 2 * shape.bc * head_dim * size_of_f32(),
        };
        FlashLaunch {
            values: value_kernel(v_bits),
            wide: shape.br == shape.wide_br,
            partial,
            reduce: plain((chunk_len, n_heads, 1), (head_dim, 1, 1)),
        }
    }
}

/// Kernels of one token's mixture of experts.
#[derive(Debug, Clone, Copy, PartialEq, Eq, Structural)]
pub struct MoeKernels;

impl MoeKernels {
    /// A block a row. The kernel's shared arrays bound the experts.
    pub fn route_topk(&self, rows: u32, expert_count: u32) -> (r: LaunchConfig)
        requires
            expert_count <= MOE_MAX_EXPERTS,
        ensures
            r == plain_launch((rows, 1, 1), (MOE_ROUTE_BLOCK, 1, 1)),
    {
        plain((rows, 1, 1), (MOE_ROUTE_BLOCK, 1, 1))
    }

    /// A thread an element.
    pub fn shared_gate_write(&self, n: u32) -> (r: LaunchConfig)
        ensures
            r == linear_launch(n as int),
    {
        linear(n)
    }

    /// A thread an element.
    pub fn weighted_accum(&self, n: u32) -> (r: LaunchConfig)
        ensures
            r == linear_launch(n as int),
    {
        linear(n)
    }
}

/// Kernels of a chunk's mixture of experts.
#[derive(Debug, Clone, Copy, PartialEq, Eq, Structural)]
pub struct MoeChunkKernels;

impl MoeChunkKernels {
    /// A block a tile of the product.
    pub fn gemm_xwt_f32(&self, rows: u32, m: u32) -> (r: LaunchConfig)
        ensures
            r == plain_launch(
                (
                    ceil_div(m as int, GEMM_F32_TILE as int) as u32,
                    ceil_div(rows as int, GEMM_F32_TILE as int) as u32,
                    1,
                ),
                (GEMM_F32_TILE, GEMM_F32_TILE, 1),
            ),
    {
        plain(
            (div_ceil(m, GEMM_F32_TILE), div_ceil(rows, GEMM_F32_TILE), 1),
            (GEMM_F32_TILE, GEMM_F32_TILE, 1),
        )
    }

    /// A thread an element of the packed rows.
    pub fn gather_rows(&self, rows: u32, cols: u32) -> (r: LaunchConfig)
        requires
            rows * cols <= u32::MAX,
        ensures
            r == linear_launch(rows * cols),
    {
        linear(rows * cols)
    }

    /// A thread an element of the packed rows.
    pub fn scatter_weighted_accum(&self, rows: u32, cols: u32) -> (r: LaunchConfig)
        requires
            rows * cols <= u32::MAX,
        ensures
            r == linear_launch(rows * cols),
    {
        linear(rows * cols)
    }

    /// A thread an element of the chunk.
    pub fn shared_gate_write_chunk(&self, rows: u32, cols: u32) -> (r: LaunchConfig)
        requires
            rows * cols <= u32::MAX,
        ensures
            r == linear_launch(rows * cols),
    {
        linear(rows * cols)
    }
}

} // verus!
