use paras_inherent::bitfield_filter::{sanitize_bitfields, BitfieldError, FilterMode};
use paras_inherent::bits::DisputedBitfield;
use paras_inherent::candidate_filter::sanitize_backed_candidates;
use paras_inherent::orchestrator::{
    ChainView, DelegateResponses, DisputeOutcome, EnterOutcome, Pallet, ProcessedCandidates,
};
use paras_inherent::types::{
    BackedCandidate, BitfieldSignature, CandidateCommitments, CandidateDescriptor,
    CandidateReceipt, CoreAssignment, DisputeStatementSet, Error, Header, InherentBundle,
    UncheckedBitfield, MINIMAL_INCLUSION_INHERENT_WEIGHT,
};

fn h(n: u8) -> [u8; 32] {
    let mut a = [0u8; 32];
    a[0] = n;
    a
}

fn bitfield(idx: u32, bits: usize, signer: u64, parent: [u8; 32], session: u32) -> UncheckedBitfield {
    UncheckedBitfield {
        validator_index: idx,
        payload: vec![false; bits],
        signature: BitfieldSignature { signer, parent_hash: parent, session },
    }
}

fn candidate(para: u32, relay: [u8; 32], hash: [u8; 32]) -> BackedCandidate {
    BackedCandidate {
        candidate: CandidateReceipt {
            descriptor: CandidateDescriptor { para_id: para, relay_parent: relay },
            commitments: CandidateCommitments { new_validation_code: None },
            hash,
        },
        validity_votes: vec![0],
    }
}

#[test]
fn lenient_pass_keeps_a_clean_list_unchanged() {
    let parent = h(1);
    let input = vec![
        bitfield(0, 3, 10, parent, 1),
        bitfield(1, 3, 11, parent, 1),
        bitfield(4, 3, 12, parent, 1),
    ];
    let validators = vec![10u64, 11, 12, 13, 14];
    let zeros = DisputedBitfield::zeros(3);
    let out = sanitize_bitfields(
        FilterMode::Lenient,
        input.clone(),
        &zeros,
        3,
        parent,
        1,
        &validators,
    )
    .unwrap();
    assert_eq!(out, input);
}

#[test]
fn lenient_pass_output_is_strictly_increasing() {
    let parent = h(1);
    let input = vec![
        bitfield(1, 3, 10, parent, 1),
        bitfield(1, 3, 10, parent, 1), // duplicate index: dropped
        bitfield(0, 3, 10, parent, 1), // out of order: dropped
        bitfield(3, 2, 10, parent, 1), // wrong payload size: dropped
        bitfield(9, 3, 10, parent, 1), // validator index out of bounds: dropped
        bitfield(4, 3, 10, parent, 1),
    ];
    let validators = vec![10u64; 5];
    let zeros = DisputedBitfield::zeros(3);
    let out = sanitize_bitfields(FilterMode::Lenient, input, &zeros, 3, parent, 1, &validators)
        .unwrap();
    assert_eq!(out.len(), 2);
    assert!(out[0].validator_index < out[1].validator_index);
    assert_eq!(out[0].validator_index, 1);
    assert_eq!(out[1].validator_index, 4);
}

#[test]
fn strict_pass_rejects_wrong_disputed_bitfield_size() {
    let parent = h(1);
    let zeros = DisputedBitfield::zeros(2);
    let r = sanitize_bitfields(
        FilterMode::Strict,
        Vec::new(),
        &zeros,
        3,
        parent,
        1,
        &vec![10u64],
    );
    assert_eq!(r, Err(BitfieldError::WrongBitfieldSize));
}

#[test]
fn strict_pass_rejects_wrong_payload_size() {
    let parent = h(1);
    let zeros = DisputedBitfield::zeros(3);
    let r = sanitize_bitfields(
        FilterMode::Strict,
        vec![bitfield(0, 2, 10, parent, 1)],
        &zeros,
        3,
        parent,
        1,
        &vec![10u64],
    );
    assert_eq!(r, Err(BitfieldError::WrongBitfieldSize));
}

#[test]
fn strict_pass_rejects_duplicates_and_disorder() {
    let parent = h(1);
    let zeros = DisputedBitfield::zeros(3);
    let r = sanitize_bitfields(
        FilterMode::Strict,
        vec![bitfield(1, 3, 11, parent, 1), bitfield(1, 3, 11, parent, 1)],
        &zeros,
        3,
        parent,
        1,
        &vec![10u64, 11],
    );
    assert_eq!(r, Err(BitfieldError::BitfieldDuplicateOrUnordered));
}

#[test]
fn strict_pass_rejects_out_of_bounds_validator() {
    let parent = h(1);
    let zeros = DisputedBitfield::zeros(3);
    let r = sanitize_bitfields(
        FilterMode::Strict,
        vec![bitfield(5, 3, 10, parent, 1)],
        &zeros,
        3,
        parent,
        1,
        &vec![10u64, 11],
    );
    assert_eq!(r, Err(BitfieldError::ValidatorIndexOutOfBounds));
}

#[test]
fn strict_pass_rejects_a_bad_signature() {
    let parent = h(1);
    let zeros = DisputedBitfield::zeros(3);
    // signed by key 99, but validator 0 holds key 10
    let r = sanitize_bitfields(
        FilterMode::Strict,
        vec![bitfield(0, 3, 99, parent, 1)],
        &zeros,
        3,
        parent,
        1,
        &vec![10u64],
    );
    assert_eq!(r, Err(BitfieldError::InvalidBitfieldSignature));
}

#[test]
fn strict_pass_accepts_a_clean_signed_list() {
    let parent = h(1);
    let zeros = DisputedBitfield::zeros(3);
    let input = vec![bitfield(0, 3, 10, parent, 1), bitfield(1, 3, 11, parent, 1)];
    let r = sanitize_bitfields(
        FilterMode::Strict,
        input.clone(),
        &zeros,
        3,
        parent,
        1,
        &vec![10u64, 11],
    );
    assert_eq!(r, Ok(input));
}

#[test]
fn disputed_candidate_is_dropped_leniently_and_rejected_strictly() {
    // five active cores, three scheduled candidates on cores 0, 1, 2;
    // the candidate on core 1 is disputed
    let parent = [0u8; 32];
    let scheduled = vec![
        CoreAssignment { core: 0, para_id: 10 },
        CoreAssignment { core: 1, para_id: 11 },
        CoreAssignment { core: 2, para_id: 12 },
    ];
    let candidates = vec![
        candidate(10, parent, h(1)),
        candidate(11, parent, h(2)),
        candidate(12, parent, h(3)),
    ];
    let disputed = vec![h(2)];
    let lenient = sanitize_backed_candidates(
        FilterMode::Lenient,
        parent,
        candidates.clone(),
        &disputed,
        &Vec::new(),
        &scheduled,
    )
    .unwrap();
    assert_eq!(lenient.len(), 2);
    assert_eq!(lenient[0].candidate.descriptor.para_id, 10);
    assert_eq!(lenient[1].candidate.descriptor.para_id, 12);
    let strict = sanitize_backed_candidates(
        FilterMode::Strict,
        parent,
        candidates,
        &disputed,
        &Vec::new(),
        &scheduled,
    );
    assert_eq!(strict, Err(Error::CandidateConcludedInvalid));
}

#[test]
fn orchestrator_degrades_to_zero_candidates_on_strict_rejection() {
    // the same scenario through the whole admission: the disputed
    // candidate makes the strict pass fail, the block proceeds with zero
    // candidates, core 1 is freed and marked in the disputed bitfield
    let parent = [0u8; 32];
    let mut pallet = Pallet::new();
    let view = ChainView {
        parent_hash: parent,
        session: 1,
        block_number: 1,
        expected_bits: 5,
        core_occupants: vec![None, Some(h(2)), None, None, None],
        validators: Vec::new(),
        consumed_weight: 0,
        max_block_weight: 1_000_000,
        vrf_randomness: None,
    };
    let dispute_outcome = DisputeOutcome {
        ingest_ok: true,
        frozen: false,
        concluded_invalid: vec![h(2)],
    };
    let delegates = DelegateResponses {
        freed_concluded: Ok(Vec::new()),
        timeout_cores: Vec::new(),
        scheduled: vec![
            CoreAssignment { core: 0, para_id: 10 },
            CoreAssignment { core: 1, para_id: 11 },
            CoreAssignment { core: 2, para_id: 12 },
        ],
        processed: Ok(ProcessedCandidates { core_indices: Vec::new(), backing: Vec::new() }),
    };
    let data = InherentBundle {
        bitfields: Vec::new(),
        backed_candidates: vec![
            candidate(10, parent, h(1)),
            candidate(11, parent, h(2)),
            candidate(12, parent, h(3)),
        ],
        disputes: vec![DisputeStatementSet {
            session: 1,
            candidate_hash: h(2),
            statements: vec![1],
        }],
        parent_header: Header { hash: parent, state_root: [0u8; 32] },
    };
    let r = pallet.enter(&view, &dispute_outcome, delegates, data);
    match r {
        Ok(EnterOutcome::Processed { weight, disputed_bitfield, freed_by_dispute, .. }) => {
            assert_eq!(weight, MINIMAL_INCLUSION_INHERENT_WEIGHT);
            assert_eq!(freed_by_dispute, vec![1u32]);
            assert_eq!(disputed_bitfield.len(), 5);
            for k in 0..5 {
                assert_eq!(disputed_bitfield.bit(k), k == 1);
            }
        },
        _ => panic!("the block must proceed with zero candidates"),
    }
}

#[test]
fn omitting_candidates_from_an_accepted_list_stays_accepted() {
    let parent = [0u8; 32];
    let scheduled = vec![
        CoreAssignment { core: 0, para_id: 10 },
        CoreAssignment { core: 1, para_id: 11 },
        CoreAssignment { core: 2, para_id: 12 },
    ];
    let a = candidate(10, parent, h(1));
    let b = candidate(11, parent, h(2));
    let c = candidate(12, parent, h(3));
    let whole = vec![a.clone(), b.clone(), c.clone()];
    let accepted = sanitize_backed_candidates(
        FilterMode::Strict,
        parent,
        whole.clone(),
        &Vec::new(),
        &Vec::new(),
        &scheduled,
    );
    assert_eq!(accepted, Ok(whole));
    let reduced = vec![a, c];
    let still_accepted = sanitize_backed_candidates(
        FilterMode::Strict,
        parent,
        reduced.clone(),
        &Vec::new(),
        &Vec::new(),
        &scheduled,
    );
    assert_eq!(still_accepted, Ok(reduced));
}
