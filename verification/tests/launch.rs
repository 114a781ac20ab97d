//! Launch shapes.

use rocml::qwen35::forward::launch::{
    ceil_div16, linear, size_of_f32, value_kernel, ChunkKernels, FlashPrefillMixedKernels,
    FlashShape, GdnChunkwiseKernels, GdnChunkwiseWmmaKernels, HybridKernels, LaunchConfig,
    MixedKernels, MoeChunkKernels, MoeKernels, ValueKernel,
};

fn cfg(grid: (u32, u32, u32), block: (u32, u32, u32), shared: u32) -> LaunchConfig {
    LaunchConfig { grid, block, shared_mem_bytes: shared }
}

#[test]
fn linear_launches_cover_every_element() {
    for total in [0u32, 1, 255, 256, 257, 100_000] {
        let l = linear(total);
        assert_eq!(l.block, (256, 1, 1));
        assert!(l.grid.0 * 256 >= total);
        assert!(l.grid.0 * 256 < total + 256);
    }
    assert_eq!(linear(257), cfg((2, 1, 1), (256, 1, 1), 0));
}

#[test]
fn helpers() {
    assert_eq!(size_of_f32(), 4);
    assert_eq!(ceil_div16(0), 0);
    assert_eq!(ceil_div16(16), 1);
    assert_eq!(ceil_div16(17), 2);
    assert_eq!(value_kernel(8), ValueKernel::Q8);
    assert_eq!(value_kernel(4), ValueKernel::Q4);
}

#[test]
fn single_token_kernels() {
    let k = HybridKernels;
    assert_eq!(k.rope_partial(1, 4, 64), linear(4 * 32));
    assert_eq!(k.gdn_conv1d_decode(6144), cfg((24, 1, 1), (256, 1, 1), 0));
    assert_eq!(k.gdn_gate(32), linear(32));
    assert_eq!(
        k.gdn_recurrence_decode(32, 128, 96),
        cfg((32, 1, 1), (128, 1, 1), 2 * (128 + 96) * 4)
    );
    assert_eq!(k.sigmoid_mul(4096), linear(4096));
}

#[test]
fn chunk_kernels() {
    let k = ChunkKernels;
    assert_eq!(k.gdn_conv1d_chunk(1000), cfg((4, 1, 1), (256, 1, 1), 0));
    assert_eq!(k.extract_heads(3, 4, 16), linear(192));
    assert_eq!(k.scatter_kv_chunk(2, 16, 7), linear(224));
    assert_eq!(k.scatter_kv_chunk_f16(2, 16, 7), linear(224));
    assert_eq!(k.gdn_gate_chunk(32, 512), cfg((64, 1, 1), (256, 1, 1), 0));
}

#[test]
fn chunkwise_kernels() {
    let k = GdnChunkwiseKernels;
    assert_eq!(k.prep_point(32, 128), cfg((32, 128, 1), (32, 1, 1), 0));
    assert_eq!(k.prep_cumsum(32, 100), cfg((32, 1, 1), (100, 1, 1), 400));
    assert_eq!(k.ut_build(32, 128), cfg((32, 128, 1), (32, 8, 1), 0));
    assert_eq!(k.tinv(32, 128), cfg((32, 1, 1), (128, 1, 1), 65536));
    assert_eq!(k.uv_vnew(32, 64, 128, 100), cfg((32, 100, 1), (128, 1, 1), 256));
    assert_eq!(k.output(32, 128, 100), cfg((32, 100, 1), (128, 1, 1), 0));
    assert_eq!(k.state_update(32, 64, 128), cfg((32, 64, 1), (128, 1, 1), 0));
    let w = GdnChunkwiseWmmaKernels;
    assert_eq!(w.state_update(32, 128, 96), cfg((32, 8, 6), (32, 1, 1), 0));
    assert_eq!(w.output_lds(32), cfg((32, 1, 1), (32, 16, 1), 32768));
    assert_eq!(w.ut_build_lds(32), cfg((32, 1, 1), (32, 16, 1), 49152));
}

#[test]
fn mixed_kernels() {
    let k = MixedKernels;
    assert_eq!(k.quantize_evict_k(4, 256), cfg((4, 1, 1), (256, 1, 1), 0));
    assert_eq!(
        k.quantize_evict_v(4, 2, 128),
        (ValueKernel::Q4, cfg((2, 128, 1), (32, 1, 1), 0))
    );
    assert_eq!(
        k.attn_decode_partial_mixed(8, 2, 4, 128, 6),
        (ValueKernel::Q8, cfg((2, 6, 1), (32, 4, 1), 2 * 8 * 128 * 4))
    );
    let shape = FlashShape { br: 4, wide_br: 8, bc: 32, n_splits: 3 };
    let l = FlashPrefillMixedKernels.attn_prefill_flash_mixed(8, 16, 2, 128, 10, shape);
    assert_eq!(l.values, ValueKernel::Q8);
    assert!(!l.wide);
    assert_eq!(l.partial, cfg((2, 3, 3), (32, 8, 4), 2 * 32 * 128 * 4));
    assert_eq!(l.reduce, cfg((10, 16, 1), (128, 1, 1), 0));
}

#[test]
fn expert_kernels() {
    let k = MoeKernels;
    assert_eq!(k.route_topk(5, 256), cfg((5, 1, 1), (256, 1, 1), 0));
    assert_eq!(k.shared_gate_write(2048), linear(2048));
    assert_eq!(k.weighted_accum(2048), linear(2048));
    let c = MoeChunkKernels;
    assert_eq!(c.gemm_xwt_f32(20, 256), cfg((16, 2, 1), (16, 16, 1), 0));
    assert_eq!(c.gather_rows(3, 100), linear(300));
    assert_eq!(c.scatter_weighted_accum(3, 100), linear(300));
    assert_eq!(c.shared_gate_write_chunk(3, 100), linear(300));
}
