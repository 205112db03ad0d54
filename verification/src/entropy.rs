//! Per-block entropy: the seed for every randomized selection later in the
//! pipeline. It must be identical at authoring time and during re-execution,
//! so it is a pure function of on-chain state: the verifiable per-block
//! randomness — which the caller obtains from the chain's randomness source
//! under a fixed candidate-selection domain tag — when the chain offers it,
//! else the parent block hash.

use vstd::prelude::*;
use crate::types::Hash32;

verus! {

/// The 32-byte selection seed for this block.
pub fn compute_entropy(vrf_randomness: Option<Hash32>, parent_hash: Hash32) -> (r: [u8; 32])
    ensures
        match vrf_randomness {
            Some(v) => r@ == v@,
            None => r@ == parent_hash@,
        },
{
    match vrf_randomness {
        Some(v) => v,
        None => parent_hash,
    }
}

} // verus!
