use paras_inherent::bits::DisputedBitfield;
use paras_inherent::entropy::compute_entropy;
use paras_inherent::orchestrator::{
    create_inherent, ChainView, DelegateResponses, DisputeOutcome, ProcessedCandidates,
};
use paras_inherent::types::{
    BackedCandidate, BitfieldSignature, CandidateCommitments, CandidateDescriptor,
    CandidateReceipt, CoreAssignment, Header, InherentBundle, UncheckedBitfield,
};
use paras_inherent::weight::{apply_weight_limit, backed_candidate_weight, bitfield_weight};

fn h(n: u8) -> [u8; 32] {
    let mut a = [0u8; 32];
    a[0] = n;
    a
}

fn bitfield(idx: u32, bits: usize, signer: u64, parent: [u8; 32], session: u32) -> UncheckedBitfield {
    UncheckedBitfield {
        validator_index: idx,
        payload: vec![false; bits],
        signature: BitfieldSignature { signer, parent_hash: parent, session },
    }
}

fn candidate(para: u32, relay: [u8; 32], hash: [u8; 32], votes: u32, upgrade: bool) -> BackedCandidate {
    BackedCandidate {
        candidate: CandidateReceipt {
            descriptor: CandidateDescriptor { para_id: para, relay_parent: relay },
            commitments: CandidateCommitments {
                new_validation_code: if upgrade { Some(vec![1u8]) } else { None },
            },
            hash,
        },
        validity_votes: (0..votes).collect(),
    }
}

#[test]
fn candidate_cost_follows_the_formula() {
    let c = candidate(1, [0u8; 32], h(1), 3, true);
    assert_eq!(backed_candidate_weight(&c), 3 * 1_000 + 10_000);
    let plain = candidate(1, [0u8; 32], h(1), 2, false);
    assert_eq!(backed_candidate_weight(&plain), 2_000);
}

#[test]
fn bitfield_cost_is_fixed() {
    let b = bitfield(0, 3, 1, [0u8; 32], 1);
    assert_eq!(bitfield_weight(&b), 7_000);
}

#[test]
fn everything_fits_and_is_returned_unchanged() {
    let candidates = vec![
        candidate(1, [0u8; 32], h(1), 2, false),  // 2_000
        candidate(2, [0u8; 32], h(2), 3, true),   // 13_000
    ];
    let bitfields = vec![bitfield(0, 2, 1, [0u8; 32], 1), bitfield(1, 2, 2, [0u8; 32], 1)];
    let (weight, kept_candidates, kept_bitfields) =
        apply_weight_limit(candidates.clone(), bitfields.clone(), h(9), 100_000);
    assert_eq!(weight, 2_000 + 13_000 + 2 * 7_000);
    assert_eq!(kept_candidates, candidates);
    assert_eq!(kept_bitfields, bitfields);
}

#[test]
fn overweight_bitfields_drop_all_candidates_and_sample_a_prefix() {
    // four bitfields at 7_000 each: 28_000 alone exceeds the budget of
    // 10_000, so candidates are dropped and bitfields sampled until the
    // accumulated cost first reaches the budget: always exactly two
    let parent = [0u8; 32];
    let bitfields: Vec<UncheckedBitfield> =
        (0..4).map(|i| bitfield(i, 2, i as u64, parent, 1)).collect();
    let candidates = vec![candidate(1, parent, h(1), 2, false)];
    let (weight, kept_candidates, kept_bitfields) =
        apply_weight_limit(candidates, bitfields, h(5), 10_000);
    assert_eq!(kept_candidates.len(), 0);
    assert_eq!(kept_bitfields.len(), 2);
    assert_eq!(weight, 14_000);
    // returned in original validator-index order
    assert!(kept_bitfields[0].validator_index < kept_bitfields[1].validator_index);
}

#[test]
fn fitting_bitfields_are_kept_and_candidates_sampled() {
    // one bitfield (7_000) fits the budget of 10_000; candidates of
    // 4_000 each are sampled against the remaining 3_000: exactly one
    let parent = [0u8; 32];
    let bitfields = vec![bitfield(0, 2, 1, parent, 1)];
    let candidates: Vec<BackedCandidate> =
        (0..3).map(|i| candidate(i, parent, h(i as u8), 4, false)).collect();
    let (weight, kept_candidates, kept_bitfields) =
        apply_weight_limit(candidates, bitfields.clone(), h(5), 10_000);
    assert_eq!(kept_bitfields, bitfields);
    assert_eq!(kept_candidates.len(), 1);
    assert_eq!(weight, 7_000 + 4_000);
}

#[test]
fn selection_is_deterministic_for_equal_entropy() {
    let parent = [0u8; 32];
    let bitfields: Vec<UncheckedBitfield> =
        (0..8).map(|i| bitfield(i, 2, i as u64, parent, 1)).collect();
    let candidates: Vec<BackedCandidate> =
        (0..6).map(|i| candidate(i, parent, h(i as u8), 5, false)).collect();
    let first = apply_weight_limit(candidates.clone(), bitfields.clone(), h(42), 30_000);
    let second = apply_weight_limit(candidates, bitfields, h(42), 30_000);
    assert_eq!(first.0, second.0);
    assert_eq!(first.1, second.1);
    assert_eq!(first.2, second.2);
}

#[test]
fn entropy_prefers_verifiable_randomness() {
    assert_eq!(compute_entropy(Some(h(5)), h(7)), h(5));
    assert_eq!(compute_entropy(None, h(7)), h(7));
}

#[test]
fn disputed_bitfield_reads_back_what_was_set() {
    let mut bits = DisputedBitfield::zeros(5);
    assert_eq!(bits.len(), 5);
    for k in 0..5 {
        assert!(!bits.bit(k));
    }
    bits.set_bit(3, true);
    for k in 0..5 {
        assert_eq!(bits.bit(k), k == 3);
    }
}

#[test]
fn author_keeps_sanitized_data_when_the_dry_run_passes() {
    let parent = [0u8; 32];
    let view = ChainView {
        parent_hash: parent,
        session: 1,
        block_number: 1,
        expected_bits: 2,
        core_occupants: vec![None, None],
        validators: vec![7],
        consumed_weight: 0,
        max_block_weight: 1_000_000,
        vrf_randomness: None,
    };
    let dispute_outcome =
        DisputeOutcome { ingest_ok: true, frozen: false, concluded_invalid: Vec::new() };
    let delegates = DelegateResponses {
        freed_concluded: Ok(Vec::new()),
        timeout_cores: Vec::new(),
        scheduled: vec![CoreAssignment { core: 0, para_id: 10 }],
        processed: Ok(ProcessedCandidates { core_indices: Vec::new(), backing: Vec::new() }),
    };
    let good_bitfield = bitfield(0, 2, 7, parent, 1);
    let good_candidate = candidate(10, parent, h(1), 1, false);
    let data = InherentBundle {
        bitfields: vec![good_bitfield.clone(), bitfield(1, 1, 7, parent, 1)],
        backed_candidates: vec![good_candidate.clone(), candidate(10, h(9), h(2), 1, false)],
        disputes: Vec::new(),
        parent_header: Header { hash: parent, state_root: [0u8; 32] },
    };
    let r = create_inherent(&view, &dispute_outcome, &delegates, &Vec::new(), data);
    assert_eq!(r.bitfields, vec![good_bitfield]);
    assert_eq!(r.backed_candidates, vec![good_candidate]);
    assert_eq!(r.disputes.len(), 0);
    assert_eq!(r.parent_header.hash, parent);
}

#[test]
fn author_submits_an_empty_bundle_when_the_dry_run_fails() {
    let parent = [0u8; 32];
    let view = ChainView {
        parent_hash: parent,
        session: 1,
        block_number: 1,
        expected_bits: 2,
        core_occupants: vec![None, None],
        validators: vec![7],
        consumed_weight: 0,
        max_block_weight: 1_000_000,
        vrf_randomness: None,
    };
    // the dispute ledger rejects the statements: the dry run fails
    let dispute_outcome =
        DisputeOutcome { ingest_ok: false, frozen: false, concluded_invalid: Vec::new() };
    let delegates = DelegateResponses {
        freed_concluded: Ok(Vec::new()),
        timeout_cores: Vec::new(),
        scheduled: vec![CoreAssignment { core: 0, para_id: 10 }],
        processed: Ok(ProcessedCandidates { core_indices: Vec::new(), backing: Vec::new() }),
    };
    let data = InherentBundle {
        bitfields: vec![bitfield(0, 2, 7, parent, 1)],
        backed_candidates: vec![candidate(10, parent, h(1), 1, false)],
        disputes: Vec::new(),
        parent_header: Header { hash: parent, state_root: [0u8; 32] },
    };
    let r = create_inherent(&view, &dispute_outcome, &delegates, &Vec::new(), data);
    assert_eq!(r.bitfields.len(), 0);
    assert_eq!(r.backed_candidates.len(), 0);
    assert_eq!(r.disputes.len(), 0);
    assert_eq!(r.parent_header.hash, parent);
}
