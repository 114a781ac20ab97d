//! Mixture-of-experts bookkeeping: which experts a router selected, which
//! device slot each one occupies, and where its bytes are.

pub mod expert_cache;
pub mod expert_lru;
pub mod overlap;
pub mod route;
pub mod tensor;
