use paras_inherent::orchestrator::{
    ChainView, DelegateFailure, DelegateResponses, DisputeOutcome, EnterOutcome, Pallet,
    ProcessedCandidates,
};
use paras_inherent::types::{
    BackedCandidate, CoreAssignment, DisputeStatementSet, Error, Header, InherentBundle,
    BACKED_CANDIDATE_WEIGHT, MINIMAL_INCLUSION_INHERENT_WEIGHT,
};

const MAX_BLOCK: u64 = 1_000_000;

fn default_header() -> Header {
    Header { hash: [0u8; 32], state_root: [0u8; 32] }
}

fn base_view() -> ChainView {
    ChainView {
        parent_hash: [0u8; 32],
        session: 1,
        block_number: 1,
        expected_bits: 0,
        core_occupants: Vec::new(),
        validators: Vec::new(),
        consumed_weight: 0,
        max_block_weight: MAX_BLOCK,
        vrf_randomness: None,
    }
}

fn ok_disputes() -> DisputeOutcome {
    DisputeOutcome { ingest_ok: true, frozen: false, concluded_invalid: Vec::new() }
}

fn ok_delegates(scheduled: Vec<CoreAssignment>) -> DelegateResponses {
    DelegateResponses {
        freed_concluded: Ok(Vec::new()),
        timeout_cores: Vec::new(),
        scheduled,
        processed: Ok(ProcessedCandidates { core_indices: Vec::new(), backing: Vec::new() }),
    }
}

fn bundle_of(candidates: Vec<BackedCandidate>) -> InherentBundle {
    InherentBundle {
        bitfields: Vec::new(),
        backed_candidates: candidates,
        disputes: Vec::new(),
        parent_header: default_header(),
    }
}

#[test]
fn weight_does_not_change_on_happy_path() {
    let mut pallet = Pallet::new();
    let mut view = base_view();
    // half the block is used: plenty of margin
    view.consumed_weight = MAX_BLOCK / 2;
    let backed_candidates = vec![BackedCandidate::default(); 10];
    let expected_weight = MINIMAL_INCLUSION_INHERENT_WEIGHT
        + backed_candidates.len() as u64 * BACKED_CANDIDATE_WEIGHT;
    let scheduled = vec![CoreAssignment { core: 0, para_id: 0 }];
    let r = pallet.enter(
        &view,
        &ok_disputes(),
        ok_delegates(scheduled),
        bundle_of(backed_candidates),
    );
    match r {
        Ok(EnterOutcome::Processed { weight, .. }) => assert_eq!(weight, expected_weight),
        _ => panic!("admission should have processed the bundle"),
    }
}

#[test]
fn weight_changes_when_backed_candidates_are_truncated() {
    let mut pallet = Pallet::new();
    let mut view = base_view();
    // this mandatory work pushed the block over its weight limit
    view.consumed_weight = MAX_BLOCK + 1;
    let backed_candidates = vec![BackedCandidate::default(); 10];
    let expected_weight = MINIMAL_INCLUSION_INHERENT_WEIGHT;
    let scheduled = vec![CoreAssignment { core: 0, para_id: 0 }];
    let r = pallet.enter(
        &view,
        &ok_disputes(),
        ok_delegates(scheduled),
        bundle_of(backed_candidates),
    );
    match r {
        Ok(EnterOutcome::Processed { weight, .. }) => assert_eq!(weight, expected_weight),
        _ => panic!("admission should have processed the bundle"),
    }
}

#[test]
fn second_admission_always_fails() {
    let mut pallet = Pallet::new();
    let view = base_view();
    let first = pallet.enter(&view, &ok_disputes(), ok_delegates(Vec::new()), bundle_of(Vec::new()));
    assert!(first.is_ok());
    let second = pallet.enter(
        &view,
        &ok_disputes(),
        ok_delegates(Vec::new()),
        bundle_of(vec![BackedCandidate::default()]),
    );
    assert!(matches!(second, Err(Error::TooManyInclusionInherents)));
}

#[test]
fn frozen_chain_short_circuits_at_minimal_cost() {
    let mut pallet = Pallet::new();
    let view = base_view();
    let disputes = DisputeOutcome { ingest_ok: true, frozen: true, concluded_invalid: Vec::new() };
    // non-empty optimistic data changes nothing while frozen
    let data = bundle_of(vec![BackedCandidate::default(); 3]);
    let r = pallet.enter(&view, &disputes, ok_delegates(Vec::new()), data);
    match r {
        Ok(EnterOutcome::FrozenShortCircuit { weight }) => {
            assert_eq!(weight, MINIMAL_INCLUSION_INHERENT_WEIGHT)
        },
        _ => panic!("a frozen chain must short-circuit successfully"),
    }
    assert!(pallet.included);
    assert!(pallet.on_chain_votes.is_none());
}

#[test]
fn wrong_parent_header_is_rejected() {
    let mut pallet = Pallet::new();
    let mut view = base_view();
    view.parent_hash = [9u8; 32];
    let r = pallet.enter(&view, &ok_disputes(), ok_delegates(Vec::new()), bundle_of(Vec::new()));
    assert!(matches!(r, Err(Error::InvalidParentHeader)));
    assert!(!pallet.included);
}

#[test]
fn rejected_dispute_ingestion_aborts_the_block() {
    let mut pallet = Pallet::new();
    let view = base_view();
    let disputes = DisputeOutcome { ingest_ok: false, frozen: false, concluded_invalid: Vec::new() };
    let r = pallet.enter(&view, &disputes, ok_delegates(Vec::new()), bundle_of(Vec::new()));
    assert!(matches!(r, Err(Error::DisputeIngestionFailed)));
}

#[test]
fn bitfield_processing_failure_aborts_the_block() {
    let mut pallet = Pallet::new();
    let view = base_view();
    let mut delegates = ok_delegates(Vec::new());
    delegates.freed_concluded = Err(DelegateFailure { marker: false });
    let r = pallet.enter(&view, &ok_disputes(), delegates, bundle_of(Vec::new()));
    assert!(matches!(r, Err(Error::BitfieldProcessingFailed)));
    assert!(!pallet.included);
}

#[test]
fn candidate_processing_failure_aborts_the_block() {
    let mut pallet = Pallet::new();
    let view = base_view();
    let mut delegates = ok_delegates(Vec::new());
    delegates.processed = Err(DelegateFailure { marker: false });
    let r = pallet.enter(&view, &ok_disputes(), delegates, bundle_of(Vec::new()));
    assert!(matches!(r, Err(Error::CandidateProcessingFailed)));
    assert!(!pallet.included);
}

#[test]
fn summary_record_is_overwritten_on_admission() {
    let mut pallet = Pallet::new();
    let view = base_view();
    let mut delegates = ok_delegates(vec![CoreAssignment { core: 0, para_id: 0 }]);
    delegates.processed = Ok(ProcessedCandidates {
        core_indices: vec![0],
        backing: vec![([3u8; 32], vec![0, 2])],
    });
    let disputes = vec![DisputeStatementSet {
        session: 1,
        candidate_hash: [4u8; 32],
        statements: vec![7],
    }];
    let data = InherentBundle {
        bitfields: Vec::new(),
        backed_candidates: Vec::new(),
        disputes: disputes.clone(),
        parent_header: default_header(),
    };
    let r = pallet.enter(&view, &ok_disputes(), delegates, data);
    assert!(r.is_ok());
    let votes = pallet.on_chain_votes.expect("summary must be recorded");
    assert_eq!(votes.session, 1);
    assert_eq!(votes.backing_validators_per_candidate, vec![([3u8; 32], vec![0, 2])]);
    assert_eq!(votes.disputes, disputes);
}

#[test]
fn finalize_reports_and_resets_the_marker() {
    let mut pallet = Pallet::new();
    assert!(!pallet.on_finalize());
    let view = base_view();
    let r = pallet.enter(&view, &ok_disputes(), ok_delegates(Vec::new()), bundle_of(Vec::new()));
    assert!(r.is_ok());
    assert!(pallet.on_finalize());
    assert!(!pallet.included);
}
