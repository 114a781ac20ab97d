//! Verified core of a local inference runtime for Qwen3.5 hybrid models.

use vstd::prelude::*;

pub mod bytes;
pub mod error;
pub mod load_opts;
pub mod math;
pub mod qwen35;
pub mod registry;
pub mod sample;
pub mod snapshot;
pub mod text;

verus! {

} // verus!
