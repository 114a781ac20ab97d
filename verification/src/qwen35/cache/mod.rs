//! Per-layer decode state.

pub mod copies;
pub mod effect;
pub mod hybrid;
pub mod layout;
pub mod mixed;
pub mod plane;
pub mod rows;
