//! Capping runtime-code upgrades: at most one upgrade-carrying candidate
//! is processed per block, and a block that has already overrun its weight
//! budget with unrelated work takes no candidates at all.

use vstd::prelude::*;
use crate::types::BackedCandidate;

verus! {

/// The candidate carries a runtime-code upgrade.
pub open spec fn has_code_upgrade(c: BackedCandidate) -> bool {
    c.candidate.commitments.new_validation_code is Some
}

/// How many candidates in the list carry a code upgrade.
pub open spec fn count_upgrades(s: Seq<BackedCandidate>) -> int
    decreases s.len(),
{
    if s.len() == 0 {
        0
    } else {
        (if has_code_upgrade(s[0]) { 1int } else { 0int }) + count_upgrades(s.drop_first())
    }
}

/// Keeps the list in order, dropping every upgrade-carrying candidate
/// after the first; `seen` records whether one was already kept.
pub open spec fn cap_code_upgrades(s: Seq<BackedCandidate>, seen: bool) -> Seq<BackedCandidate>
    decreases s.len(),
{
    if s.len() == 0 {
        Seq::empty()
    } else if has_code_upgrade(s[0]) {
        if seen {
            cap_code_upgrades(s.drop_first(), true)
        } else {
            seq![s[0]] + cap_code_upgrades(s.drop_first(), true)
        }
    } else {
        seq![s[0]] + cap_code_upgrades(s.drop_first(), seen)
    }
}

/// What the limiter returns: nothing when the block is already overweight,
/// else the upgrade-capped list.
pub open spec fn limit_backed_candidates_spec(
    s: Seq<BackedCandidate>,
    consumed_weight: u64,
    max_block_weight: u64,
) -> Seq<BackedCandidate> {
    if consumed_weight > max_block_weight {
        Seq::empty()
    } else {
        cap_code_upgrades(s, false)
    }
}

/// A capped list holds no upgrade when one was already seen, and at most
/// one otherwise — so the limiter's output never carries more than one
/// code upgrade, whatever the input.
pub proof fn lemma_code_upgrade_cap(s: Seq<BackedCandidate>, seen: bool)
    ensures
        count_upgrades(cap_code_upgrades(s, seen)) <= if seen { 0int } else { 1int },
    decreases s.len(),
{
    if s.len() > 0 {
        let rest = s.drop_first();
        if has_code_upgrade(s[0]) {
            lemma_code_upgrade_cap(rest, true);
            if !seen {
                let tail = cap_code_upgrades(rest, true);
                assert((seq![s[0]] + tail).drop_first() =~= tail);
            }
        } else {
            lemma_code_upgrade_cap(rest, seen);
            let tail = cap_code_upgrades(rest, seen);
            assert((seq![s[0]] + tail).drop_first() =~= tail);
        }
    }
}

/// Capping never grows the list.
pub proof fn lemma_cap_len(s: Seq<BackedCandidate>, seen: bool)
    ensures
        cap_code_upgrades(s, seen).len() <= s.len(),
    decreases s.len(),
{
    if s.len() > 0 {
        lemma_cap_len(s.drop_first(), true);
        lemma_cap_len(s.drop_first(), seen);
    }
}

/// Limits the backed candidates processed this block: drops every code
/// upgrade after the first, then drops everything if the block's already
/// consumed weight exceeds the configured maximum.
pub fn limit_backed_candidates(
    backed_candidates: Vec<BackedCandidate>,
    consumed_weight: u64,
    max_block_weight: u64,
) -> (r: Vec<BackedCandidate>)
    ensures
        r@ == limit_backed_candidates_spec(backed_candidates@, consumed_weight, max_block_weight),
{
    let ghost orig = backed_candidates@;
    let mut rest = backed_candidates;
    let mut out: Vec<BackedCandidate> = Vec::new();
    let mut seen_upgrade = false;
    while rest.len() > 0
        invariant
            cap_code_upgrades(orig, false) == out@ + cap_code_upgrades(rest@, seen_upgrade),
        decreases rest@.len(),
    {
        let ghost prev_rest = rest@;
        let ghost prev_out = out@;
        let c = rest.remove(0);
        proof {
            assert(prev_rest[0] == c);
            assert(prev_rest.drop_first() =~= rest@);
        }
        let upgrade = c.candidate.commitments.new_validation_code.is_some();
        if upgrade && seen_upgrade {
            // dropped: a code upgrade was already kept this block
        } else {
            if upgrade {
                seen_upgrade = true;
            }
            out.push(c);
            proof {
                assert(out@ =~= prev_out.push(c));
                let tail = cap_code_upgrades(rest@, seen_upgrade);
                assert(prev_out + (seq![c] + tail) =~= out@ + tail);
            }
        }
    }
    if consumed_weight > max_block_weight {
        Vec::new()
    } else {
        out
    }
}

} // verus!
