//! Admission pipeline for the per-block inherent bundle of a sharded
//! relay chain: availability bitfields, backed shard candidates and dispute
//! statements are sanitized, weight-bounded and admitted at most once per
//! block, deterministically, so that every re-executor reaches the same
//! accepted set from the same inputs.

pub mod bits;
pub mod bitfield_filter;
pub mod candidate_filter;
pub mod entropy;
pub mod orchestrator;
pub mod rng;
pub mod sums;
pub mod types;
pub mod upgrade_cap;
pub mod weight;
