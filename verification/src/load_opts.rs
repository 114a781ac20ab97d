//! Load-time choices: how the key/value cache is stored.

use vstd::prelude::*;

verus! {

/// Element type of a dense key/value plane.
#[derive(Debug, Clone, Copy, PartialEq, Eq, Hash, Structural)]
pub enum KvDtype {
    F16,
    F32,
}

/// How full-attention layers store their keys and values.
#[derive(Debug, Clone, Copy, PartialEq, Eq, Hash, Structural)]
pub enum KvCacheMode {
    /// Dense half-precision planes.
    Fp16,
    /// Mixed layout, 8-bit keys and values in the bulk region.
    Q8,
    /// Mixed layout, 8-bit keys and 4-bit values in the bulk region.
    Q4Mixed,
}

impl KvCacheMode {
    /// Whether layers other than the boundary layers use the mixed layout.
    pub fn is_quantized(self) -> (r: bool)
        ensures
            r == (self != KvCacheMode::Fp16),
    {
        match self {
            KvCacheMode::Fp16 => false,
            _ => true,
        }
    }

    /// Element type of the dense planes this mode keeps.
    pub fn dense_dtype(self) -> (r: KvDtype)
        ensures
            r == KvDtype::F16,
    {
        KvDtype::F16
    }

    /// Bits per stored value element in the bulk region.
    pub fn v_bits(self) -> (r: u8)
        ensures
            r == (if self == KvCacheMode::Q4Mixed {
                4u8
            } else {
                8u8
            }),
    {
        match self {
            KvCacheMode::Q4Mixed => 4,
            _ => 8,
        }
    }
}

/// What the caller chooses when a model is loaded.
#[derive(Debug, Clone, Copy, PartialEq, Eq, Structural)]
pub struct LoadOptions {
    /// Longest sequence wanted.
    pub ctx: usize,
    pub kv_cache: KvCacheMode,
    /// Positions that stay in half precision at the start of a sequence.
    pub kv_sink: u32,
    /// Recent positions in half precision, and the size of an evicted block.
    pub kv_window: u32,
    /// Bits per weight of a simulated rotation quantization.
    pub kv_rot_sim: Option<u8>,
    /// The simulation covers keys too.
    pub kv_rot_sim_k: bool,
    /// Whether eligible prompt projections use the integer kernel.
    pub use_mmq: bool,
    /// Most slots of the expert cache.
    pub moe_cache_slots: Option<usize>,
    /// Whether expert copies are pipelined with compute.
    pub moe_overlap: bool,
}

} // verus!
