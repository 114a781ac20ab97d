//! The forward pass: what the device is asked to do for a token or a chunk.

pub mod attention;
pub mod attention_chunk;
pub mod bounds;
pub mod dims;
pub mod ffn;
pub mod gdn;
pub mod gdn_chunk;
pub mod gdn_chunkwise;
pub mod launch;
pub mod layer;
pub mod layer_capture;
pub mod meaning;
pub mod model;
pub mod moe;
pub mod moe_chunk;
pub mod plan;
pub mod residency;
pub mod rewind;
pub mod scratch;
