//! The top-level state transition: per block it admits at most one inherent
//! bundle, ingests disputes, excludes cores freed by disputes from
//! availability accounting, strictly sanitizes candidates (degrading to an
//! empty list rather than failing the block), caps code upgrades, and
//! records the block's summary for downstream readers.
//!
//! The collaborators a full chain runtime reaches through ambient calls —
//! the scheduler, the availability/inclusion tracker, the dispute ledger —
//! own their state themselves; here their answers for this block arrive as
//! plain values, which makes the transition a pure function of
//! (state snapshot, inputs) and lets every decision be verified.

use vstd::prelude::*;
use crate::bitfield_filter::FilterMode;
use crate::bits::DisputedBitfield;
use crate::candidate_filter::{
    sanitize_backed_candidates, sanitize_candidates_spec,
};
use crate::types::{
    contains_hash, hash_eq, hash_in, same_hash, BackedCandidate, CoreAssignment,
    DisputeStatementSet, Error, Hash32, Header, InherentBundle, ScrapedOnChainVotes, UncheckedBitfield,
    BACKED_CANDIDATE_WEIGHT, MINIMAL_INCLUSION_INHERENT_WEIGHT,
};
use crate::upgrade_cap::{limit_backed_candidates, limit_backed_candidates_spec};

verus! {

/// The chain state the orchestrator reads at the start of the block.
#[derive(Clone, Debug)]
pub struct ChainView {
    /// The recorded hash of the parent block.
    pub parent_hash: Hash32,
    /// The current session index.
    pub session: u32,
    /// The current block number.
    pub block_number: u32,
    /// The number of active availability cores.
    pub expected_bits: usize,
    /// Per core, the hash of the candidate currently occupying it, if any.
    pub core_occupants: Vec<Option<Hash32>>,
    /// The active validator keys, by validator index.
    pub validators: Vec<u64>,
    /// Weight already consumed by the block before this inherent.
    pub consumed_weight: u64,
    /// The block's weight budget.
    pub max_block_weight: u64,
    /// Verifiable per-block randomness, when the chain offers it.
    pub vrf_randomness: Option<Hash32>,
}

/// A failure reported by a delegated collaborator; its detail belongs to
/// the collaborator and is opaque here.
#[derive(Clone, Debug)]
pub struct DelegateFailure {
    pub marker: bool,
}

/// What the inclusion tracker answered for the candidates it processed.
#[derive(Clone, Debug)]
pub struct ProcessedCandidates {
    /// The cores now occupied by an admitted candidate.
    pub core_indices: Vec<u32>,
    /// Per admitted candidate, its hash and its backing validator indices.
    pub backing: Vec<(Hash32, Vec<u32>)>,
}

/// The answers of the delegated collaborators for this block. Each answer
/// stands for one call/response exchange over a collaborator's narrow
/// interface.
#[derive(Debug)]
pub struct DelegateResponses {
    /// Availability tracking: the cores freed by concluded availability,
    /// with the candidate that became available — or the tracker's error,
    /// which aborts the block.
    pub freed_concluded: Result<Vec<(u32, Hash32)>, DelegateFailure>,
    /// The cores freed by availability timeout.
    pub timeout_cores: Vec<u32>,
    /// The scheduler's fresh assignments after freed cores were returned.
    pub scheduled: Vec<CoreAssignment>,
    /// Candidate processing: the occupied cores and backing votes — or the
    /// tracker's error, which aborts the block.
    pub processed: Result<ProcessedCandidates, DelegateFailure>,
}

/// What the dispute ledger answered for this block's statements.
#[derive(Clone, Debug)]
pub struct DisputeOutcome {
    /// Whether the ledger accepted the statements.
    pub ingest_ok: bool,
    /// Whether the chain is frozen by an unresolved critical dispute.
    pub frozen: bool,
    /// The candidate hashes concluded invalid for the current session.
    pub concluded_invalid: Vec<Hash32>,
}

/// What a successful admission produced.
pub enum EnterOutcome {
    /// The chain is frozen: the attempt succeeds, marks the block as
    /// admitted, performs no candidate or bitfield work, and costs the
    /// minimal amount.
    FrozenShortCircuit { weight: u64 },
    /// The bundle was processed.
    Processed {
        /// The cost to refund against: minimal, plus one share per
        /// admitted candidate.
        weight: u64,
        /// One bit per core; set where the occupant was concluded invalid.
        disputed_bitfield: DisputedBitfield,
        /// The cores freed by disputes, in increasing order.
        freed_by_dispute: Vec<u32>,
        /// The cores the inclusion tracker reported occupied.
        occupied: Vec<u32>,
    },
}

/// The hashes of candidates that this bundle disputes in the current
/// session and that the ledger has concluded invalid, in submission order.
pub open spec fn invalid_of(
    disputes: Seq<DisputeStatementSet>,
    session: u32,
    oracle_invalid: Seq<Hash32>,
) -> Seq<Hash32>
    decreases disputes.len(),
{
    if disputes.len() == 0 {
        Seq::empty()
    } else {
        let rest = invalid_of(disputes.drop_last(), session, oracle_invalid);
        let d = disputes.last();
        if d.session == session && hash_in(oracle_invalid, d.candidate_hash) {
            rest + seq![d.candidate_hash]
        } else {
            rest
        }
    }
}

/// Core `k` is occupied by a candidate whose hash is in `invalid`.
pub open spec fn spec_disputed_core(
    occupants: Seq<Option<Hash32>>,
    invalid: Seq<Hash32>,
    k: int,
) -> bool {
    &&& 0 <= k < occupants.len()
    &&& occupants[k] matches Some(h) && hash_in(invalid, h)
}

/// The cores freed because their occupant was concluded invalid, in
/// increasing core order.
pub open spec fn freed_cores_spec(occupants: Seq<Option<Hash32>>, invalid: Seq<Hash32>) -> Seq<
    u32,
>
    decreases occupants.len(),
{
    if occupants.len() == 0 {
        Seq::empty()
    } else {
        let rest = freed_cores_spec(occupants.drop_last(), invalid);
        if spec_disputed_core(occupants, invalid, occupants.len() - 1) {
            rest + seq![(occupants.len() - 1) as u32]
        } else {
            rest
        }
    }
}

/// The candidates the block finally admits: the strict sanitizer's output
/// (or nothing, when it rejects), upgrade-capped and overweight-guarded.
pub open spec fn admitted_candidates(
    data: InherentBundle,
    view: ChainView,
    dispute_outcome: DisputeOutcome,
    scheduled: Seq<CoreAssignment>,
) -> Seq<BackedCandidate> {
    let invalid = invalid_of(data.disputes@, view.session, dispute_outcome.concluded_invalid@);
    let sanitized = match sanitize_candidates_spec(
        FilterMode::Strict,
        data.backed_candidates@,
        view.parent_hash,
        invalid,
        dispute_outcome.concluded_invalid@,
        scheduled,
    ) {
        Ok(v) => v,
        Err(_) => Seq::empty(),
    };
    limit_backed_candidates_spec(sanitized, view.consumed_weight, view.max_block_weight)
}

/// When an admission attempt succeeds: never a second time in a block,
/// never with a wrong parent header, never when dispute ingestion fails;
/// when frozen it succeeds at once, otherwise both delegated processing
/// steps must succeed.
pub open spec fn enter_accepts(
    included: bool,
    view: ChainView,
    dispute_outcome: DisputeOutcome,
    delegates: DelegateResponses,
    parent_header: Header,
) -> bool {
    &&& !included
    &&& same_hash(parent_header.hash, view.parent_hash)
    &&& dispute_outcome.ingest_ok
    &&& (dispute_outcome.frozen || (delegates.freed_concluded is Ok && delegates.processed is Ok))
}

/// What a processed (non-frozen) admission returns: the refund weight
/// follows the admitted-candidate count, the disputed-core bit vector and
/// the freed cores describe exactly the cores whose occupant was concluded
/// invalid, and the occupied cores are the inclusion tracker's answer.
pub open spec fn processed_outcome_ok(
    r: Result<EnterOutcome, Error>,
    data: InherentBundle,
    view: ChainView,
    dispute_outcome: DisputeOutcome,
    delegates: DelegateResponses,
) -> bool {
    let invalid = invalid_of(data.disputes@, view.session, dispute_outcome.concluded_invalid@);
    r matches Ok(EnterOutcome::Processed { weight, disputed_bitfield, freed_by_dispute, occupied })
        && weight == MINIMAL_INCLUSION_INHERENT_WEIGHT + admitted_candidates(
        data,
        view,
        dispute_outcome,
        delegates.scheduled@,
    ).len() * BACKED_CANDIDATE_WEIGHT && disputed_bitfield.bits().len() == view.expected_bits && (
    forall|k: int|
        0 <= k < view.expected_bits ==> disputed_bitfield.bits()[k] == spec_disputed_core(
            view.core_occupants@,
            invalid,
            k,
        )) && freed_by_dispute@ == freed_cores_spec(view.core_occupants@, invalid) && (
    delegates.processed matches Ok(p)
        && occupied@ == p.core_indices@)
}

/// The block summary was overwritten with this session, the backing votes
/// the inclusion tracker reported, and the raw disputes of the bundle.
pub open spec fn votes_recorded(
    state: Pallet,
    data: InherentBundle,
    view: ChainView,
    delegates: DelegateResponses,
) -> bool {
    delegates.processed matches Ok(p) ==> state.on_chain_votes matches Some(v) && v.session
        == view.session && v.backing_validators_per_candidate@ == p.backing@ && v.disputes@
        == data.disputes@
}

/// The block-scoped state the orchestrator itself owns: the one-shot
/// admission marker and the summary record for downstream readers.
pub struct Pallet {
    /// Whether the inherent was already admitted this block.
    pub included: bool,
    /// The summary of the last admitted bundle.
    pub on_chain_votes: Option<ScrapedOnChainVotes>,
}

impl Pallet {
    /// Fresh block-scoped state: nothing admitted, no summary.
    pub fn new() -> (r: Self)
        ensures
            !r.included,
            r.on_chain_votes is None,
    {
        Pallet { included: false, on_chain_votes: None }
    }

    /// Block finalization: reports whether the inherent was admitted and
    /// resets the marker for the next block. A caller must treat a `false`
    /// answer as an invalid block.
    pub fn on_finalize(&mut self) -> (ok: bool)
        ensures
            ok == old(self).included,
            !final(self).included,
            final(self).on_chain_votes == old(self).on_chain_votes,
    {
        let ok = self.included;
        self.included = false;
        ok
    }

    /// Admits the inherent bundle: the one state transition of the block.
    ///
    /// Hard aborts: a repeated admission, a wrong parent header, rejected
    /// dispute ingestion, and failures of delegated bitfield or candidate
    /// processing. A frozen chain short-circuits successfully at minimal
    /// cost. A strict sanitizer rejection degrades to an empty candidate
    /// list and never aborts the block.
    pub fn enter(
        &mut self,
        view: &ChainView,
        dispute_outcome: &DisputeOutcome,
        delegates: DelegateResponses,
        data: InherentBundle,
    ) -> (r: Result<EnterOutcome, Error>)
        requires
            MINIMAL_INCLUSION_INHERENT_WEIGHT + data.backed_candidates@.len()
                * BACKED_CANDIDATE_WEIGHT <= u64::MAX,
        ensures
            r is Ok <==> enter_accepts(
                old(self).included,
                *view,
                *dispute_outcome,
                delegates,
                data.parent_header,
            ),
            old(self).included ==> r == Err::<EnterOutcome, Error>(
                Error::TooManyInclusionInherents,
            ) && *final(self) == *old(self),
            !old(self).included && !same_hash(data.parent_header.hash, view.parent_hash) ==> r
                == Err::<EnterOutcome, Error>(Error::InvalidParentHeader) && *final(self) == *old(
                self,
            ),
            !old(self).included && same_hash(data.parent_header.hash, view.parent_hash)
                && !dispute_outcome.ingest_ok ==> r == Err::<EnterOutcome, Error>(
                Error::DisputeIngestionFailed,
            ) && *final(self) == *old(self),
            !old(self).included && same_hash(data.parent_header.hash, view.parent_hash)
                && dispute_outcome.ingest_ok && dispute_outcome.frozen ==> r == Ok::<
                EnterOutcome,
                Error,
            >(EnterOutcome::FrozenShortCircuit { weight: MINIMAL_INCLUSION_INHERENT_WEIGHT })
                && final(self).included && final(self).on_chain_votes == old(self).on_chain_votes,
            !old(self).included && same_hash(data.parent_header.hash, view.parent_hash)
                && dispute_outcome.ingest_ok && !dispute_outcome.frozen
                && delegates.freed_concluded is Err ==> r == Err::<EnterOutcome, Error>(
                Error::BitfieldProcessingFailed,
            ) && *final(self) == *old(self),
            !old(self).included && same_hash(data.parent_header.hash, view.parent_hash)
                && dispute_outcome.ingest_ok && !dispute_outcome.frozen
                && delegates.freed_concluded is Ok && delegates.processed is Err ==> r == Err::<
                EnterOutcome,
                Error,
            >(Error::CandidateProcessingFailed) && *final(self) == *old(self),
            !old(self).included && same_hash(data.parent_header.hash, view.parent_hash)
                && dispute_outcome.ingest_ok && !dispute_outcome.frozen
                && delegates.freed_concluded is Ok && delegates.processed is Ok
                ==> processed_outcome_ok(r, data, *view, *dispute_outcome, delegates)
                && final(self).included
                && votes_recorded(*final(self), data, *view, delegates),
    {
        if self.included {
            return Err(Error::TooManyInclusionInherents);
        }
        if !hash_eq(&data.parent_header.hash, &view.parent_hash) {
            return Err(Error::InvalidParentHeader);
        }
        if !dispute_outcome.ingest_ok {
            return Err(Error::DisputeIngestionFailed);
        }
        if dispute_outcome.frozen {
            // The chain is invalid: proceed no further on shard work.
            self.included = true;
            return Ok(
                EnterOutcome::FrozenShortCircuit { weight: MINIMAL_INCLUSION_INHERENT_WEIGHT },
            );
        }
        // Candidates disputed by this bundle and concluded invalid.
        let mut invalid: Vec<Hash32> = Vec::new();
        let nd = data.disputes.len();
        for i in 0..nd
            invariant
                nd == data.disputes@.len(),
                invalid@ == invalid_of(
                    data.disputes@.take(i as int),
                    view.session,
                    dispute_outcome.concluded_invalid@,
                ),
        {
            let ghost prev_invalid = invalid@;
            proof {
                assert(data.disputes@.take(i + 1).drop_last() =~= data.disputes@.take(i as int));
                assert(data.disputes@.take(i + 1).last() == data.disputes@[i as int]);
            }
            let d = &data.disputes[i];
            if d.session == view.session && contains_hash(
                &dispute_outcome.concluded_invalid,
                &d.candidate_hash,
            ) {
                invalid.push(d.candidate_hash);
                proof {
                    assert(invalid@ =~= prev_invalid + seq![data.disputes@[i as int].candidate_hash]);
                }
            }
        }
        proof {
            assert(data.disputes@.take(nd as int) =~= data.disputes@);
        }
        // Cores freed by disputes, and the disputed-core bit vector.
        let mut disputed_bitfield = DisputedBitfield::zeros(view.expected_bits);
        let mut freed_disputed: Vec<u32> = Vec::new();
        let n_cores = view.core_occupants.len();
        for c in 0..n_cores
            invariant
                n_cores == view.core_occupants@.len(),
                disputed_bitfield.bits().len() == view.expected_bits,
                forall|k: int|
                    0 <= k < view.expected_bits ==> disputed_bitfield.bits()[k] == (k < c
                        && spec_disputed_core(view.core_occupants@, invalid@, k)),
                freed_disputed@ == freed_cores_spec(view.core_occupants@.take(c as int), invalid@),
        {
            let ghost prev_freed = freed_disputed@;
            let ghost prev_bits = disputed_bitfield.bits();
            proof {
                assert(view.core_occupants@.take(c + 1).drop_last() =~= view.core_occupants@.take(
                    c as int,
                ));
                assert(view.core_occupants@.take(c + 1).last() == view.core_occupants@[c as int]);
            }
            let hit = match &view.core_occupants[c] {
                Some(h) => contains_hash(&invalid, h),
                None => false,
            };
            proof {
                assert(hit == spec_disputed_core(view.core_occupants@, invalid@, c as int));
                assert(spec_disputed_core(view.core_occupants@.take(c + 1), invalid@, c as int)
                    == spec_disputed_core(view.core_occupants@, invalid@, c as int));
            }
            if hit {
                freed_disputed.push(c as u32);
                if c < view.expected_bits {
                    disputed_bitfield.set_bit(c, true);
                }
                proof {
                    assert(freed_disputed@ =~= prev_freed + seq![c as u32]);
                }
            }
        }
        proof {
            assert(view.core_occupants@.take(n_cores as int) =~= view.core_occupants@);
        }
        // Delegated bitfield processing: strict validation and availability
        // bookkeeping happen in the availability tracker; an error there
        // aborts the block.
        let _freed_concluded = match delegates.freed_concluded {
            Ok(f) => f,
            Err(_) => {
                return Err(Error::BitfieldProcessingFailed);
            },
        };
        // The freed cores, the timeout cores and the rescheduling are the
        // scheduler's own work; its fresh assignments arrived in
        // `delegates.scheduled`.
        // Strict candidate sanitizing against the fresh scheduling; on
        // rejection degrade to an empty list, never abort the block.
        let sanitized = match sanitize_backed_candidates(
            FilterMode::Strict,
            view.parent_hash,
            data.backed_candidates,
            &invalid,
            &dispute_outcome.concluded_invalid,
            &delegates.scheduled,
        ) {
            Ok(v) => v,
            Err(_) => Vec::new(),
        };
        proof {
            crate::upgrade_cap::lemma_cap_len(sanitized@, false);
        }
        let capped = limit_backed_candidates(sanitized, view.consumed_weight, view.max_block_weight);
        let n_candidates = capped.len();
        // Delegated candidate processing; an error there aborts the block.
        let processed = match delegates.processed {
            Ok(p) => p,
            Err(_) => {
                return Err(Error::CandidateProcessingFailed);
            },
        };
        // Overwrite the block's summary record for downstream readers.
        self.on_chain_votes = Some(
            ScrapedOnChainVotes {
                session: view.session,
                backing_validators_per_candidate: processed.backing,
                disputes: data.disputes,
            },
        );
        self.included = true;
        let weight = MINIMAL_INCLUSION_INHERENT_WEIGHT + (n_candidates as u64)
            * BACKED_CANDIDATE_WEIGHT;
        Ok(
            EnterOutcome::Processed {
                weight,
                disputed_bitfield,
                freed_by_dispute: freed_disputed,
                occupied: processed.core_indices,
            },
        )
    }
}

/// The pair `(session, h)` is among the freshly accepted dispute pairs.
pub open spec fn pair_in(fresh: Seq<(u32, Hash32)>, session: u32, h: Hash32) -> bool {
    exists|i: int| 0 <= i < fresh.len() && fresh[i].0 == session && same_hash(fresh[i].1, h)
}

/// The hashes of candidates with a pending dispute: disputed in the
/// current session, already known to the ledger (not freshly accepted),
/// and not yet concluded invalid. The author drops these optimistically.
pub open spec fn pending_of(
    disputes: Seq<DisputeStatementSet>,
    session: u32,
    fresh: Seq<(u32, Hash32)>,
    oracle_invalid: Seq<Hash32>,
) -> Seq<Hash32>
    decreases disputes.len(),
{
    if disputes.len() == 0 {
        Seq::empty()
    } else {
        let rest = pending_of(disputes.drop_last(), session, fresh, oracle_invalid);
        let d = disputes.last();
        if d.session == session && !pair_in(fresh, session, d.candidate_hash) && !hash_in(
            oracle_invalid,
            d.candidate_hash,
        ) {
            rest + seq![d.candidate_hash]
        } else {
            rest
        }
    }
}

/// The bitfields the author keeps: a lenient pass over the draft.
pub open spec fn author_bitfields(view: ChainView, data: InherentBundle) -> Seq<
    UncheckedBitfield,
> {
    crate::bitfield_filter::lenient_filter(
        data.bitfields@,
        view.expected_bits as nat,
        view.validators@.len(),
        None,
    )
}

/// The candidates the author keeps: a lenient pass dropping anything with
/// a pending or concluded dispute, a wrong parent, or no scheduled core.
pub open spec fn author_candidates(
    view: ChainView,
    dispute_outcome: DisputeOutcome,
    fresh: Seq<(u32, Hash32)>,
    scheduled: Seq<CoreAssignment>,
    data: InherentBundle,
) -> Seq<BackedCandidate> {
    crate::candidate_filter::admissible_filter(
        data.backed_candidates@,
        view.parent_hash,
        pending_of(data.disputes@, view.session, fresh, dispute_outcome.concluded_invalid@),
        dispute_outcome.concluded_invalid@,
        scheduled,
    )
}

/// Linear test whether a freshly accepted dispute pair names this hash.
fn pair_contains(fresh: &Vec<(u32, Hash32)>, session: u32, h: &Hash32) -> (r: bool)
    ensures
        r == pair_in(fresh@, session, *h),
{
    let mut i: usize = 0;
    while i < fresh.len()
        invariant
            i <= fresh@.len(),
            forall|j: int|
                0 <= j < i ==> !(fresh@[j].0 == session && same_hash(fresh@[j].1, *h)),
        decreases fresh@.len() - i,
    {
        if fresh[i].0 == session && hash_eq(&fresh[i].1, h) {
            assert(fresh@[i as int].0 == session && same_hash(fresh@[i as int].1, *h));
            return true;
        }
        i += 1;
    }
    false
}

/// The author-side dry run of the admission conditions: whether `enter`
/// would accept, on fresh block state, a bundle carrying this parent
/// header. Acceptance does not depend on the sanitized payload itself.
pub fn enter_would_succeed(
    included: bool,
    view: &ChainView,
    dispute_outcome: &DisputeOutcome,
    delegates: &DelegateResponses,
    parent_header: &Header,
) -> (b: bool)
    ensures
        b == enter_accepts(included, *view, *dispute_outcome, *delegates, *parent_header),
{
    !included && hash_eq(&parent_header.hash, &view.parent_hash) && dispute_outcome.ingest_ok && (
    dispute_outcome.frozen || (delegates.freed_concluded.is_ok() && delegates.processed.is_ok()))
}

/// Builds the bundle the author submits: sanitize leniently, drop anything
/// under a pending dispute, confine the rest to the weight budget, and dry
/// run the admission conditions; if the dry run fails, submit an empty
/// bundle (parent header intact), which is always accepted since it
/// carries no rejectable content. The caller hands in disputes already
/// passed through the dispute ledger's duplicate filter, and the ledger's
/// freshly accepted `(session, candidate)` pairs from a rolled-back trial
/// ingestion.
pub fn create_inherent(
    view: &ChainView,
    dispute_outcome: &DisputeOutcome,
    delegates: &DelegateResponses,
    fresh_disputes: &Vec<(u32, Hash32)>,
    data: InherentBundle,
) -> (r: InherentBundle)
    requires
        crate::weight::total_weight(data.backed_candidates@, data.bitfields@) <= u64::MAX,
    ensures
        r.parent_header == data.parent_header,
        !enter_accepts(false, *view, *dispute_outcome, *delegates, data.parent_header) ==> r
            .bitfields@.len() == 0 && r.backed_candidates@.len() == 0 && r.disputes@.len() == 0,
        enter_accepts(false, *view, *dispute_outcome, *delegates, data.parent_header) ==> r
            .disputes@ == data.disputes@,
        enter_accepts(false, *view, *dispute_outcome, *delegates, data.parent_header)
            && crate::weight::total_weight(
            author_candidates(*view, *dispute_outcome, fresh_disputes@, delegates.scheduled@, data),
            author_bitfields(*view, data),
        ) <= view.max_block_weight ==> r.backed_candidates@ == author_candidates(
            *view,
            *dispute_outcome,
            fresh_disputes@,
            delegates.scheduled@,
            data,
        ) && r.bitfields@ == author_bitfields(*view, data),
        enter_accepts(false, *view, *dispute_outcome, *delegates, data.parent_header)
            && crate::weight::total_weight(
            author_candidates(*view, *dispute_outcome, fresh_disputes@, delegates.scheduled@, data),
            author_bitfields(*view, data),
        ) > view.max_block_weight && crate::weight::bitfields_weight(author_bitfields(*view, data))
            <= view.max_block_weight ==> r.bitfields@ == author_bitfields(*view, data) && (exists|
            idxs: Seq<usize>,
        |
            crate::sums::strictly_increasing(idxs) && (forall|k: int|
                0 <= k < idxs.len() ==> idxs[k] < author_candidates(
                    *view,
                    *dispute_outcome,
                    fresh_disputes@,
                    delegates.scheduled@,
                    data,
                ).len()) && r.backed_candidates@ == crate::sums::selected_seq(
                author_candidates(
                    *view,
                    *dispute_outcome,
                    fresh_disputes@,
                    delegates.scheduled@,
                    data,
                ),
                idxs,
            )),
        enter_accepts(false, *view, *dispute_outcome, *delegates, data.parent_header)
            && crate::weight::total_weight(
            author_candidates(*view, *dispute_outcome, fresh_disputes@, delegates.scheduled@, data),
            author_bitfields(*view, data),
        ) > view.max_block_weight && crate::weight::bitfields_weight(author_bitfields(*view, data))
            > view.max_block_weight ==> r.backed_candidates@.len() == 0 && (exists|
            idxs: Seq<usize>,
        |
            crate::sums::strictly_increasing(idxs) && (forall|k: int|
                0 <= k < idxs.len() ==> idxs[k] < author_bitfields(*view, data).len())
                && r.bitfields@ == crate::sums::selected_seq(author_bitfields(*view, data), idxs)),
{
    // Candidates with a pending dispute this session.
    let mut pending: Vec<Hash32> = Vec::new();
    let nd = data.disputes.len();
    for i in 0..nd
        invariant
            nd == data.disputes@.len(),
            pending@ == pending_of(
                data.disputes@.take(i as int),
                view.session,
                fresh_disputes@,
                dispute_outcome.concluded_invalid@,
            ),
    {
        let ghost prev_pending = pending@;
        proof {
            assert(data.disputes@.take(i + 1).drop_last() =~= data.disputes@.take(i as int));
            assert(data.disputes@.take(i + 1).last() == data.disputes@[i as int]);
        }
        let d = &data.disputes[i];
        if d.session == view.session && !pair_contains(fresh_disputes, view.session, &d.candidate_hash)
            && !contains_hash(&dispute_outcome.concluded_invalid, &d.candidate_hash) {
            pending.push(d.candidate_hash);
            proof {
                assert(pending@ =~= prev_pending + seq![data.disputes@[i as int].candidate_hash]);
            }
        }
    }
    proof {
        assert(data.disputes@.take(nd as int) =~= data.disputes@);
    }
    // Lenient sanitizing; in lenient mode both passes always succeed.
    let zeros = DisputedBitfield::zeros(view.expected_bits);
    let bitfields = match crate::bitfield_filter::sanitize_bitfields(
        FilterMode::Lenient,
        data.bitfields,
        &zeros,
        view.expected_bits,
        view.parent_hash,
        view.session,
        &view.validators,
    ) {
        Ok(v) => v,
        Err(_) => Vec::new(),
    };
    let candidates = match sanitize_backed_candidates(
        FilterMode::Lenient,
        view.parent_hash,
        data.backed_candidates,
        &pending,
        &dispute_outcome.concluded_invalid,
        &delegates.scheduled,
    ) {
        Ok(v) => v,
        Err(_) => Vec::new(),
    };
    // The weight limit works on the sanitized lists, whose cost is no
    // larger than the submitted draft's.
    proof {
        crate::weight::lemma_filter_weight_le(
            data.backed_candidates@,
            view.parent_hash,
            pending@,
            dispute_outcome.concluded_invalid@,
            delegates.scheduled@,
        );
        crate::bitfield_filter::lemma_lenient_filter_monotone(
            data.bitfields@,
            view.expected_bits as nat,
            view.validators@.len(),
            None,
        );
        crate::weight::lemma_candidates_weight_nonneg(data.backed_candidates@);
        crate::weight::lemma_candidates_weight_nonneg(candidates@);
    }
    let entropy = crate::entropy::compute_entropy(view.vrf_randomness, view.parent_hash);
    let limited = crate::weight::apply_weight_limit(
        candidates,
        bitfields,
        entropy,
        view.max_block_weight,
    );
    let kept_candidates = limited.1;
    let kept_bitfields = limited.2;
    // The dry run: would the on-chain path accept this bundle?
    if enter_would_succeed(false, view, dispute_outcome, delegates, &data.parent_header) {
        InherentBundle {
            bitfields: kept_bitfields,
            backed_candidates: kept_candidates,
            disputes: data.disputes,
            parent_header: data.parent_header,
        }
    } else {
        InherentBundle {
            bitfields: Vec::new(),
            backed_candidates: Vec::new(),
            disputes: Vec::new(),
            parent_header: data.parent_header,
        }
    }
}

} // verus!
