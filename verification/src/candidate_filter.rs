//! Sanitizing backed candidates. A candidate is dropped when its hash is
//! disputed or already concluded invalid for this session, when its declared
//! parent hash differs from the block's parent, or when its shard has no
//! scheduled core this block. Candidates are untrusted input: omitting one
//! is always safe, admitting an invalid one is not.

use vstd::prelude::*;
use crate::bitfield_filter::FilterMode;
use crate::types::{
    same_hash, hash_in, BackedCandidate, CoreAssignment, Error, Hash32,
};

verus! {

/// The shard of this candidate has a core assigned this block.
pub open spec fn para_is_scheduled(scheduled: Seq<CoreAssignment>, para_id: u32) -> bool {
    exists|i: int| 0 <= i < scheduled.len() && scheduled[i].para_id == para_id
}

/// All checks one candidate must pass to stay in the list.
pub open spec fn candidate_admissible(
    c: BackedCandidate,
    relay_parent: Hash32,
    disputed: Seq<Hash32>,
    oracle_invalid: Seq<Hash32>,
    scheduled: Seq<CoreAssignment>,
) -> bool {
    &&& !hash_in(disputed, c.candidate.hash)
    &&& !hash_in(oracle_invalid, c.candidate.hash)
    &&& same_hash(c.candidate.descriptor.relay_parent, relay_parent)
    &&& para_is_scheduled(scheduled, c.candidate.descriptor.para_id)
}

/// The admissible candidates, in submission order.
pub open spec fn admissible_filter(
    s: Seq<BackedCandidate>,
    relay_parent: Hash32,
    disputed: Seq<Hash32>,
    oracle_invalid: Seq<Hash32>,
    scheduled: Seq<CoreAssignment>,
) -> Seq<BackedCandidate>
    decreases s.len(),
{
    if s.len() == 0 {
        Seq::empty()
    } else if candidate_admissible(s[0], relay_parent, disputed, oracle_invalid, scheduled) {
        seq![s[0]] + admissible_filter(s.drop_first(), relay_parent, disputed, oracle_invalid, scheduled)
    } else {
        admissible_filter(s.drop_first(), relay_parent, disputed, oracle_invalid, scheduled)
    }
}

/// The whole call on a given mode: lenient keeps the admissible remainder,
/// strict aborts if anything at all would be dropped.
pub open spec fn sanitize_candidates_spec(
    mode: FilterMode,
    s: Seq<BackedCandidate>,
    relay_parent: Hash32,
    disputed: Seq<Hash32>,
    oracle_invalid: Seq<Hash32>,
    scheduled: Seq<CoreAssignment>,
) -> Result<Seq<BackedCandidate>, Error> {
    let kept = admissible_filter(s, relay_parent, disputed, oracle_invalid, scheduled);
    match mode {
        FilterMode::Lenient => Ok(kept),
        FilterMode::Strict => if kept.len() == s.len() {
            Ok(s)
        } else {
            Err(Error::CandidateConcludedInvalid)
        },
    }
}

/// Maps the executable result to the specification's view of it.
pub open spec fn candidates_result_view(
    r: Result<Vec<BackedCandidate>, Error>,
) -> Result<Seq<BackedCandidate>, Error> {
    match r {
        Ok(v) => Ok(v@),
        Err(e) => Err(e),
    }
}

/// A filter pass never grows the list.
pub proof fn lemma_admissible_filter_len(
    s: Seq<BackedCandidate>,
    relay_parent: Hash32,
    disputed: Seq<Hash32>,
    oracle_invalid: Seq<Hash32>,
    scheduled: Seq<CoreAssignment>,
)
    ensures
        admissible_filter(s, relay_parent, disputed, oracle_invalid, scheduled).len() <= s.len(),
    decreases s.len(),
{
    if s.len() > 0 {
        lemma_admissible_filter_len(s.drop_first(), relay_parent, disputed, oracle_invalid, scheduled);
    }
}

/// The filter keeps everything exactly when every candidate is admissible.
pub proof fn lemma_admissible_filter_all(
    s: Seq<BackedCandidate>,
    relay_parent: Hash32,
    disputed: Seq<Hash32>,
    oracle_invalid: Seq<Hash32>,
    scheduled: Seq<CoreAssignment>,
)
    ensures
        admissible_filter(s, relay_parent, disputed, oracle_invalid, scheduled).len() == s.len()
            <==> (forall|i: int|
            0 <= i < s.len() ==> candidate_admissible(
                #[trigger] s[i],
                relay_parent,
                disputed,
                oracle_invalid,
                scheduled,
            )),
        (forall|i: int|
            0 <= i < s.len() ==> candidate_admissible(
                #[trigger] s[i],
                relay_parent,
                disputed,
                oracle_invalid,
                scheduled,
            )) ==> admissible_filter(s, relay_parent, disputed, oracle_invalid, scheduled) == s,
    decreases s.len(),
{
    if s.len() == 0 {
        assert(admissible_filter(s, relay_parent, disputed, oracle_invalid, scheduled) =~= s);
    } else {
        let rest = s.drop_first();
        assert(forall|i: int| 0 <= i < rest.len() ==> rest[i] == s[i + 1]);
        lemma_admissible_filter_all(rest, relay_parent, disputed, oracle_invalid, scheduled);
        lemma_admissible_filter_len(rest, relay_parent, disputed, oracle_invalid, scheduled);
        if candidate_admissible(s[0], relay_parent, disputed, oracle_invalid, scheduled) {
            if admissible_filter(rest, relay_parent, disputed, oracle_invalid, scheduled) == rest {
                assert(seq![s[0]] + rest =~= s);
            }
        }
    }
}

/// Safety of omission: every sublist of a strictly accepted candidate list
/// is itself strictly accepted, so removing any subset of candidates from
/// an accepted bundle can never make sanitizing fail on resubmission.
pub proof fn lemma_omission_safe(
    t: Seq<BackedCandidate>,
    s: Seq<BackedCandidate>,
    relay_parent: Hash32,
    disputed: Seq<Hash32>,
    oracle_invalid: Seq<Hash32>,
    scheduled: Seq<CoreAssignment>,
)
    requires
        crate::sums::is_subseq_of(t, s),
        sanitize_candidates_spec(FilterMode::Strict, s, relay_parent, disputed, oracle_invalid, scheduled)
            == Ok::<Seq<BackedCandidate>, Error>(s),
    ensures
        sanitize_candidates_spec(FilterMode::Strict, t, relay_parent, disputed, oracle_invalid, scheduled)
            == Ok::<Seq<BackedCandidate>, Error>(t),
{
    lemma_admissible_filter_all(s, relay_parent, disputed, oracle_invalid, scheduled);
    crate::sums::lemma_subseq_contains(t, s);
    assert forall|i: int| 0 <= i < t.len() implies candidate_admissible(
        #[trigger] t[i],
        relay_parent,
        disputed,
        oracle_invalid,
        scheduled,
    ) by {
        let w = choose|k: int| 0 <= k < s.len() && s[k] == t[i];
        assert(candidate_admissible(s[w], relay_parent, disputed, oracle_invalid, scheduled));
    }
    lemma_admissible_filter_all(t, relay_parent, disputed, oracle_invalid, scheduled);
}

/// Linear test whether this shard has a scheduled core.
fn para_scheduled(scheduled: &Vec<CoreAssignment>, para_id: u32) -> (r: bool)
    ensures
        r == para_is_scheduled(scheduled@, para_id),
{
    let mut i: usize = 0;
    while i < scheduled.len()
        invariant
            i <= scheduled@.len(),
            forall|j: int| 0 <= j < i ==> scheduled@[j].para_id != para_id,
        decreases scheduled@.len() - i,
    {
        if scheduled[i].para_id == para_id {
            assert(scheduled@[i as int].para_id == para_id);
            return true;
        }
        i += 1;
    }
    false
}

/// Filters backed candidates, or aborts strictly if anything would be
/// dropped; in the strict on-chain pass the caller degrades to an empty
/// candidate list instead of failing the block.
pub fn sanitize_backed_candidates(
    mode: FilterMode,
    relay_parent: Hash32,
    backed_candidates: Vec<BackedCandidate>,
    disputed_candidates: &Vec<Hash32>,
    oracle_invalid: &Vec<Hash32>,
    scheduled: &Vec<CoreAssignment>,
) -> (r: Result<Vec<BackedCandidate>, Error>)
    ensures
        candidates_result_view(r) == sanitize_candidates_spec(
            mode,
            backed_candidates@,
            relay_parent,
            disputed_candidates@,
            oracle_invalid@,
            scheduled@,
        ),
        matches!(mode, FilterMode::Lenient) ==> r is Ok,
{
    let ghost orig = backed_candidates@;
    let strict = matches!(mode, FilterMode::Strict);
    let mut rest = backed_candidates;
    let mut out: Vec<BackedCandidate> = Vec::new();
    while rest.len() > 0
        invariant
            orig == backed_candidates@,
            strict == matches!(mode, FilterMode::Strict),
            admissible_filter(orig, relay_parent, disputed_candidates@, oracle_invalid@, scheduled@)
                == out@ + admissible_filter(
                rest@,
                relay_parent,
                disputed_candidates@,
                oracle_invalid@,
                scheduled@,
            ),
            rest@.len() <= orig.len(),
            strict ==> out@ + rest@ == orig,
        decreases rest@.len(),
    {
        let ghost prev_rest = rest@;
        let ghost prev_out = out@;
        let c = rest.remove(0);
        proof {
            assert(prev_rest[0] == c);
            assert(prev_rest.drop_first() =~= rest@);
        }
        let admissible = !crate::types::contains_hash(disputed_candidates, &c.candidate.hash)
            && !crate::types::contains_hash(oracle_invalid, &c.candidate.hash)
            && crate::types::hash_eq(&c.candidate.descriptor.relay_parent, &relay_parent)
            && para_scheduled(scheduled, c.candidate.descriptor.para_id);
        if admissible {
            out.push(c);
            proof {
                assert(out@ =~= prev_out.push(c));
                let tail = admissible_filter(
                    rest@,
                    relay_parent,
                    disputed_candidates@,
                    oracle_invalid@,
                    scheduled@,
                );
                assert(prev_out + (seq![c] + tail) =~= out@ + tail);
                if strict {
                    assert(prev_out + (seq![c] + rest@) =~= out@ + rest@);
                }
            }
        } else {
            if strict {
                proof {
                    lemma_admissible_filter_len(
                        rest@,
                        relay_parent,
                        disputed_candidates@,
                        oracle_invalid@,
                        scheduled@,
                    );
                }
                return Err(Error::CandidateConcludedInvalid);
            }
        }
    }
    proof {
        if strict {
            assert(out@ + rest@ =~= out@);
        }
    }
    Ok(out)
}

} // verus!
