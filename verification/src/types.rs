//! The data model of the admission pipeline.
//!
//! Hashes and signatures are kept symbolic: a hash is a 32-byte identifier
//! carried with the value it names, and a signature records the context it
//! attests to, so that signature checking is a plain field comparison.
//! Producing real digests and verifying real signatures are cryptographic
//! concerns that live outside this component.

use vstd::prelude::*;

verus! {

/// A 32-byte chain-level identifier (block hash, candidate hash, state root).
pub type Hash32 = [u8; 32];

/// Two identifiers name the same thing when their bytes agree.
pub open spec fn same_hash(a: Hash32, b: Hash32) -> bool {
    a@ == b@
}

/// Whether a sequence of identifiers contains the given one.
pub open spec fn hash_in(s: Seq<Hash32>, h: Hash32) -> bool {
    exists|i: int| 0 <= i < s.len() && same_hash(s[i], h)
}

/// Byte-wise equality of two identifiers.
pub fn hash_eq(a: &Hash32, b: &Hash32) -> (r: bool)
    ensures
        r == same_hash(*a, *b),
{
    let mut i: usize = 0;
    while i < 32
        invariant
            i <= 32,
            forall|j: int| 0 <= j < i ==> a@[j] == b@[j],
        decreases 32 - i,
    {
        if a[i] != b[i] {
            assert(a@[i as int] != b@[i as int]);
            return false;
        }
        i += 1;
    }
    proof {
        assert(a@ =~= b@);
    }
    true
}

/// Linear membership test for an identifier in a list of identifiers.
pub fn contains_hash(hashes: &Vec<Hash32>, h: &Hash32) -> (r: bool)
    ensures
        r == hash_in(hashes@, *h),
{
    let mut i: usize = 0;
    while i < hashes.len()
        invariant
            i <= hashes@.len(),
            forall|j: int| 0 <= j < i ==> !same_hash(hashes@[j], *h),
        decreases hashes@.len() - i,
    {
        if hash_eq(&hashes[i], h) {
            assert(same_hash(hashes@[i as int], *h));
            return true;
        }
        i += 1;
    }
    false
}

/// A block header, reduced to the fields the pipeline reads: the hash that
/// names the header and the state root the candidate processor needs.
#[derive(Clone, Debug, PartialEq, Eq)]
pub struct Header {
    pub hash: Hash32,
    pub state_root: Hash32,
}

/// A symbolic bitfield signature: it records the key that signed and the
/// signing context (parent hash and session) it attests to.
#[derive(Clone, Debug, PartialEq, Eq)]
pub struct BitfieldSignature {
    pub signer: u64,
    pub parent_hash: Hash32,
    pub session: u32,
}

/// One validator's availability vote: one bit per active core, plus the
/// index of the validator and its signature, not yet verified.
#[derive(Clone, Debug, PartialEq, Eq)]
pub struct UncheckedBitfield {
    pub validator_index: u32,
    pub payload: Vec<bool>,
    pub signature: BitfieldSignature,
}

/// The descriptor of a shard-candidate proposal.
#[derive(Clone, Debug, PartialEq, Eq)]
pub struct CandidateDescriptor {
    pub para_id: u32,
    pub relay_parent: Hash32,
}

/// The outputs a candidate commits to; only the optional runtime-code
/// upgrade matters to this pipeline.
#[derive(Clone, Debug, PartialEq, Eq)]
pub struct CandidateCommitments {
    pub new_validation_code: Option<Vec<u8>>,
}

/// A candidate receipt together with the hash that names it.
#[derive(Clone, Debug, PartialEq, Eq)]
pub struct CandidateReceipt {
    pub descriptor: CandidateDescriptor,
    pub commitments: CandidateCommitments,
    pub hash: Hash32,
}

/// A candidate proposal backed by a set of validator votes.
#[derive(Clone, Debug, PartialEq, Eq)]
pub struct BackedCandidate {
    pub candidate: CandidateReceipt,
    pub validity_votes: Vec<u32>,
}

impl Default for BackedCandidate {
    /// A zeroed candidate: shard 0, zero hashes, no votes, no upgrade.
    fn default() -> (r: Self)
        ensures
            r.validity_votes@.len() == 0,
            r.candidate.commitments.new_validation_code is None,
            r.candidate.descriptor.para_id == 0,
            r.candidate.descriptor.relay_parent@ == Seq::new(32, |i: int| 0u8),
            r.candidate.hash@ == Seq::new(32, |i: int| 0u8),
    {
        let zero: Hash32 = [0u8; 32];
        proof {
            assert(zero@ =~= Seq::new(32, |i: int| 0u8));
        }
        BackedCandidate {
            candidate: CandidateReceipt {
                descriptor: CandidateDescriptor { para_id: 0, relay_parent: zero },
                commitments: CandidateCommitments { new_validation_code: None },
                hash: zero,
            },
            validity_votes: Vec::new(),
        }
    }
}

/// A set of dispute statements about one candidate in one session.
#[derive(Clone, Debug, PartialEq, Eq)]
pub struct DisputeStatementSet {
    pub session: u32,
    pub candidate_hash: Hash32,
    pub statements: Vec<u64>,
}

/// A scheduler assignment: which shard occupies which availability core
/// this block.
#[derive(Clone, Debug, PartialEq, Eq)]
pub struct CoreAssignment {
    pub core: u32,
    pub para_id: u32,
}

/// The unit exchanged between the block author and the chain.
#[derive(Clone, Debug, PartialEq, Eq)]
pub struct InherentBundle {
    pub bitfields: Vec<UncheckedBitfield>,
    pub backed_candidates: Vec<BackedCandidate>,
    pub disputes: Vec<DisputeStatementSet>,
    pub parent_header: Header,
}

/// The block-scoped summary kept for downstream readers: the session, the
/// backing validator indices per admitted candidate, and the raw disputes.
#[derive(Clone, Debug, PartialEq, Eq)]
pub struct ScrapedOnChainVotes {
    pub session: u32,
    pub backing_validators_per_candidate: Vec<(Hash32, Vec<u32>)>,
    pub disputes: Vec<DisputeStatementSet>,
}

/// Why an admission attempt fails. The first three are the pipeline's own
/// protocol violations; the last three carry a failure reported by a
/// delegated collaborator (dispute ledger, availability tracker, inclusion
/// tracker) out of the attempt.
#[derive(Clone, Copy, Debug, PartialEq, Eq)]
pub enum Error {
    /// The inherent was admitted more than once in one block.
    TooManyInclusionInherents,
    /// The submitted parent header does not hash to the recorded parent.
    InvalidParentHeader,
    /// A candidate was dropped during strict sanitizing.
    CandidateConcludedInvalid,
    /// The dispute ledger rejected the dispute statements.
    DisputeIngestionFailed,
    /// The availability tracker rejected the bitfields.
    BitfieldProcessingFailed,
    /// The inclusion tracker rejected the candidates.
    CandidateProcessingFailed,
}

/// Cost of one backed candidate per backing vote.
pub const BACKING_VOTE_WEIGHT: u64 = 1_000;

/// Surcharge for a candidate that carries a runtime-code upgrade.
pub const CODE_UPGRADE_WEIGHT: u64 = 10_000;

/// Fixed cost of one availability bitfield.
pub const BITFIELD_WEIGHT: u64 = 7_000;

/// Cost claimed by the whole inherent before refunds.
pub const INCLUSION_INHERENT_CLAIMED_WEIGHT: u64 = 1_000_000_000;

/// Cost returned when the inherent admits no candidate work.
pub const MINIMAL_INCLUSION_INHERENT_WEIGHT: u64 = INCLUSION_INHERENT_CLAIMED_WEIGHT / 4;

/// Refund-accounting cost of processing one backed candidate.
pub const BACKED_CANDIDATE_WEIGHT: u64 = 100_000;

} // verus!
