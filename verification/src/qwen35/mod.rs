//! The Qwen3.5 hybrid architecture.

pub mod cache;
pub mod config;
pub mod fields;
pub mod forward;
pub mod metadata;
pub mod model_weights;
pub mod moe;
pub mod weights;
