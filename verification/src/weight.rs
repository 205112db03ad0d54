//! The cost model and the weight limiter: when the submitted bundle does
//! not fit the block's weight budget, a reproducible random selection —
//! seeded only from block-derived entropy — confines it, preferring
//! bitfields over candidates, and returns the kept items in their original
//! order.

use vstd::prelude::*;
use crate::sums::{
    lemma_sum_at_uniform, lemma_sum_marked_all, lemma_sum_marked_le_total,
    lemma_sum_marked_none, lemma_sum_marked_nonneg, lemma_sum_marked_set,
    lemma_sum_take_le, lemma_sum_weights_nonneg, selected_seq, strictly_increasing, sum_at,
    sum_marked, sum_weights,
};
use crate::types::{
    BackedCandidate, UncheckedBitfield, BACKING_VOTE_WEIGHT, BITFIELD_WEIGHT,
    CODE_UPGRADE_WEIGHT,
};

verus! {

/// Cost of one backed candidate: its backing votes, plus a surcharge when
/// it carries a runtime-code upgrade.
pub open spec fn candidate_weight_spec(c: BackedCandidate) -> int {
    c.validity_votes@.len() * BACKING_VOTE_WEIGHT + if c.candidate.commitments.new_validation_code
        is Some {
        CODE_UPGRADE_WEIGHT as int
    } else {
        0
    }
}

/// Total cost of a candidate list.
pub open spec fn candidates_weight(s: Seq<BackedCandidate>) -> int
    decreases s.len(),
{
    if s.len() == 0 {
        0
    } else {
        candidates_weight(s.drop_last()) + candidate_weight_spec(s.last())
    }
}

/// Total cost of a bitfield list: every bitfield costs the same.
pub open spec fn bitfields_weight(s: Seq<UncheckedBitfield>) -> int {
    s.len() * BITFIELD_WEIGHT
}

/// Total cost of a whole bundle's optimistic data.
pub open spec fn total_weight(
    candidates: Seq<BackedCandidate>,
    bitfields: Seq<UncheckedBitfield>,
) -> int {
    candidates_weight(candidates) + bitfields_weight(bitfields)
}

/// A candidate-list cost is never negative.
pub proof fn lemma_candidates_weight_nonneg(s: Seq<BackedCandidate>)
    ensures
        candidates_weight(s) >= 0,
    decreases s.len(),
{
    if s.len() > 0 {
        lemma_candidates_weight_nonneg(s.drop_last());
    }
}

/// Each candidate's cost is at most the cost of the whole list.
pub proof fn lemma_candidates_weight_element(s: Seq<BackedCandidate>, i: int)
    requires
        0 <= i < s.len(),
    ensures
        candidate_weight_spec(s[i]) <= candidates_weight(s),
    decreases s.len(),
{
    if i == s.len() - 1 {
        lemma_candidates_weight_nonneg(s.drop_last());
    } else {
        lemma_candidates_weight_element(s.drop_last(), i);
    }
}

/// The cost of a selection of candidates equals the selected weights' sum.
pub proof fn lemma_selected_weight(s: Seq<BackedCandidate>, ws: Seq<u64>, idxs: Seq<usize>)
    requires
        ws.len() == s.len(),
        forall|i: int| 0 <= i < s.len() ==> ws[i] == candidate_weight_spec(s[i]),
        forall|k: int| 0 <= k < idxs.len() ==> idxs[k] < s.len(),
    ensures
        candidates_weight(selected_seq(s, idxs)) == sum_at(ws, idxs),
    decreases idxs.len(),
{
    if idxs.len() > 0 {
        lemma_selected_weight(s, ws, idxs.drop_last());
        assert(selected_seq(s, idxs).drop_last() =~= selected_seq(s, idxs.drop_last()));
        assert(selected_seq(s, idxs).last() == s[idxs.last() as int]);
    } else {
        assert(selected_seq(s, idxs) =~= Seq::<BackedCandidate>::empty());
    }
}

/// Splitting off the head splits the cost.
pub proof fn lemma_candidates_weight_prepend(x: BackedCandidate, t: Seq<BackedCandidate>)
    ensures
        candidates_weight(seq![x] + t) == candidate_weight_spec(x) + candidates_weight(t),
    decreases t.len(),
{
    if t.len() == 0 {
        assert((seq![x] + t) =~= seq![x]);
        assert(seq![x].drop_last() =~= Seq::<BackedCandidate>::empty());
        assert(candidates_weight(Seq::<BackedCandidate>::empty()) == 0);
        assert(seq![x].last() == x);
        assert(candidates_weight(seq![x]) == candidate_weight_spec(x));
    } else {
        assert((seq![x] + t).drop_last() =~= seq![x] + t.drop_last());
        assert((seq![x] + t).last() == t.last());
        lemma_candidates_weight_prepend(x, t.drop_last());
    }
}

/// Dropping candidates never increases the cost.
pub proof fn lemma_filter_weight_le(
    s: Seq<BackedCandidate>,
    relay_parent: crate::types::Hash32,
    disputed: Seq<crate::types::Hash32>,
    oracle_invalid: Seq<crate::types::Hash32>,
    scheduled: Seq<crate::types::CoreAssignment>,
)
    ensures
        candidates_weight(
            crate::candidate_filter::admissible_filter(
                s,
                relay_parent,
                disputed,
                oracle_invalid,
                scheduled,
            ),
        ) <= candidates_weight(s),
    decreases s.len(),
{
    if s.len() > 0 {
        let rest = s.drop_first();
        lemma_filter_weight_le(rest, relay_parent, disputed, oracle_invalid, scheduled);
        assert(seq![s[0]] + rest =~= s);
        lemma_candidates_weight_prepend(s[0], rest);
        if crate::candidate_filter::candidate_admissible(
            s[0],
            relay_parent,
            disputed,
            oracle_invalid,
            scheduled,
        ) {
            lemma_candidates_weight_prepend(
                s[0],
                crate::candidate_filter::admissible_filter(
                    rest,
                    relay_parent,
                    disputed,
                    oracle_invalid,
                    scheduled,
                ),
            );
        }
    }
}

/// Cost of one backed candidate.
pub fn backed_candidate_weight(c: &BackedCandidate) -> (w: u64)
    requires
        candidate_weight_spec(*c) <= u64::MAX,
    ensures
        w == candidate_weight_spec(*c),
{
    let votes = c.validity_votes.len() as u64;
    let base = votes * BACKING_VOTE_WEIGHT;
    if c.candidate.commitments.new_validation_code.is_some() {
        base + CODE_UPGRADE_WEIGHT
    } else {
        base
    }
}

/// Cost of one availability bitfield: a fixed amount.
pub fn bitfield_weight(_bitfield: &UncheckedBitfield) -> (w: u64)
    ensures
        w == BITFIELD_WEIGHT,
{
    BITFIELD_WEIGHT
}

/// The per-candidate weights, in list order.
fn candidate_weights(candidates: &Vec<BackedCandidate>) -> (ws: Vec<u64>)
    requires
        candidates_weight(candidates@) <= u64::MAX,
    ensures
        ws@.len() == candidates@.len(),
        forall|i: int| 0 <= i < ws@.len() ==> ws@[i] == candidate_weight_spec(candidates@[i]),
        sum_weights(ws@) == candidates_weight(candidates@),
{
    let mut ws: Vec<u64> = Vec::new();
    let n = candidates.len();
    for i in 0..n
        invariant
            n == candidates@.len(),
            candidates_weight(candidates@) <= u64::MAX,
            ws@.len() == i,
            forall|j: int| 0 <= j < i ==> ws@[j] == candidate_weight_spec(candidates@[j]),
            sum_weights(ws@) == candidates_weight(candidates@.take(i as int)),
    {
        let ghost prev_ws = ws@;
        proof {
            lemma_candidates_weight_element(candidates@, i as int);
            lemma_candidates_weight_nonneg(candidates@);
        }
        let w = backed_candidate_weight(&candidates[i]);
        ws.push(w);
        proof {
            assert(ws@.drop_last() =~= prev_ws);
            assert(candidates@.take(i + 1).drop_last() =~= candidates@.take(i as int));
            assert(candidates@.take(i + 1).last() == candidates@[i as int]);
        }
    }
    proof {
        assert(candidates@.take(candidates@.len() as int) =~= candidates@);
    }
    ws
}

/// Sums a weight vector.
fn sum_vec(ws: &Vec<u64>) -> (total: u64)
    requires
        sum_weights(ws@) <= u64::MAX,
    ensures
        total == sum_weights(ws@),
{
    let mut acc: u64 = 0;
    let n = ws.len();
    for i in 0..n
        invariant
            n == ws@.len(),
            sum_weights(ws@) <= u64::MAX,
            acc == sum_weights(ws@.take(i as int)),
    {
        proof {
            assert(ws@.take(i + 1).drop_last() =~= ws@.take(i as int));
            assert(ws@.take(i + 1).last() == ws@[i as int]);
            lemma_sum_take_le(ws@, i + 1);
            lemma_sum_weights_nonneg(ws@.take(i as int));
        }
        acc = acc + ws[i];
    }
    proof {
        assert(ws@.take(ws@.len() as int) =~= ws@);
    }
    acc
}

/// Keeps the items at the given strictly increasing positions, in order,
/// consuming the list.
fn select_by_indices<T>(items: Vec<T>, idxs: &Vec<usize>) -> (out: Vec<T>)
    requires
        strictly_increasing(idxs@),
        forall|k: int| 0 <= k < idxs@.len() ==> idxs@[k] < items@.len(),
    ensures
        out@ == selected_seq(items@, idxs@),
{
    let ghost orig = items@;
    let n = items.len();
    let mut rest = items;
    let mut out: Vec<T> = Vec::new();
    let mut j: usize = 0;
    let mut i: usize = 0;
    while rest.len() > 0
        invariant
            orig == items@,
            n == orig.len(),
            strictly_increasing(idxs@),
            forall|k: int| 0 <= k < idxs@.len() ==> idxs@[k] < orig.len(),
            i + rest@.len() == orig.len(),
            rest@ == orig.skip(i as int),
            j <= idxs@.len(),
            out@ == selected_seq(orig, idxs@.take(j as int)),
            forall|k: int| j <= k < idxs@.len() ==> idxs@[k] >= i,
        decreases rest@.len(),
    {
        let ghost prev_rest = rest@;
        let x = rest.remove(0);
        proof {
            assert(prev_rest[0] == orig[i as int]);
            assert(prev_rest.drop_first() =~= rest@);
            assert(orig.skip(i as int).drop_first() =~= orig.skip(i + 1));
        }
        if j < idxs.len() && idxs[j] == i {
            let ghost prev_out = out@;
            out.push(x);
            j += 1;
            proof {
                assert(selected_seq(orig, idxs@.take(j as int)) =~= prev_out.push(x));
            }
        } else {
            proof {
                assert forall|k: int| j <= k < idxs@.len() implies idxs@[k] >= i + 1 by {
                    if k == j {
                        assert(idxs@[k] != i);
                    } else {
                        assert(idxs@[j as int] < idxs@[k]);
                        assert(idxs@[j as int] != i);
                    }
                }
            }
        }
        i += 1;
    }
    proof {
        if j < idxs@.len() {
            assert(idxs@[j as int] >= orig.len());
            assert(idxs@[j as int] < orig.len());
        }
        assert(idxs@.take(j as int) =~= idxs@);
    }
    out
}

/// Samples items without replacement, by index, until the accumulated
/// weight first reaches or exceeds `weight_limit` or no item is left, and
/// returns the accumulated weight and the picked indices in increasing
/// order. Which items are picked depends on the generator; everything
/// stated here holds for every outcome.
pub fn random_sel(
    rng: &mut rand_chacha::ChaCha20Rng,
    weights: &Vec<u64>,
    weight_limit: u64,
) -> (r: (u64, Vec<usize>))
    requires
        sum_weights(weights@) <= u64::MAX,
    ensures
        strictly_increasing(r.1@),
        forall|k: int| 0 <= k < r.1@.len() ==> r.1@[k] < weights@.len(),
        r.0 == sum_at(weights@, r.1@),
        r.0 <= sum_weights(weights@),
        r.0 >= weight_limit || r.1@.len() == weights@.len(),
        r.0 >= weight_limit || r.0 == sum_weights(weights@),
        r.1@.len() > 0 ==> exists|k: int|
            0 <= k < r.1@.len() && r.0 - weights@[r.1@[k] as int] < weight_limit,
{
    let n = weights.len();
    let mut chosen: Vec<bool> = Vec::new();
    for i in 0..n
        invariant
            chosen@.len() == i,
            forall|j: int| 0 <= j < i ==> !chosen@[j],
    {
        chosen.push(false);
    }
    let mut pool: Vec<usize> = Vec::new();
    for i in 0..n
        invariant
            pool@.len() == i,
            forall|k: int| 0 <= k < i ==> pool@[k] == k,
    {
        pool.push(i);
    }
    let mut acc: u64 = 0;
    let ghost mut last_pick: Option<usize> = None;
    proof {
        lemma_sum_marked_none(weights@, chosen@);
        assert forall|j: int| 0 <= j < n && !chosen@[j] implies pool@.contains(j as usize) by {
            assert(pool@[j] == j as usize);
        }
    }
    while acc < weight_limit && pool.len() > 0
        invariant
            n == weights@.len(),
            sum_weights(weights@) <= u64::MAX,
            chosen@.len() == n,
            forall|k: int| 0 <= k < pool@.len() ==> pool@[k] < n && !chosen@[pool@[k] as int],
            forall|k1: int, k2: int|
                0 <= k1 < k2 < pool@.len() ==> pool@[k1] != pool@[k2],
            forall|j: int| 0 <= j < n && !chosen@[j] ==> pool@.contains(j as usize),
            acc == sum_marked(weights@, chosen@),
            match last_pick {
                None => forall|j: int| 0 <= j < n ==> !chosen@[j],
                Some(p) => p < n && chosen@[p as int] && acc - weights@[p as int] < weight_limit,
            },
        decreases pool@.len(),
    {
        let pick = crate::rng::chacha_gen_range(rng, pool.len());
        let ghost prev_pool = pool@;
        let ghost prev_chosen = chosen@;
        let idx = pool.swap_remove(pick);
        proof {
            assert(idx == prev_pool[pick as int]);
            let m = prev_pool.len() - 1;
            assert(pool@.len() == m);
            assert(forall|k: int|
                0 <= k < m ==> pool@[k] == if k == pick { prev_pool[m] } else { prev_pool[k] });
        }
        let w = weights[idx];
        proof {
            lemma_sum_marked_set(weights@, prev_chosen, idx as int);
            lemma_sum_marked_le_total(weights@, prev_chosen.update(idx as int, true));
        }
        chosen[idx] = true;
        proof {
            assert(chosen@ =~= prev_chosen.update(idx as int, true));
        }
        acc = acc + w;
        proof {
            last_pick = Some(idx);
            let m = prev_pool.len() - 1;
            assert forall|j: int| 0 <= j < n && !chosen@[j] implies pool@.contains(j as usize) by {
                let jv = j as usize;
                assert(j != idx);
                assert(!prev_chosen[j]);
                assert(prev_pool.contains(jv));
                let p = choose|p: int| 0 <= p < prev_pool.len() && prev_pool[p] == jv;
                if p == pick {
                    assert(jv == idx);
                } else if p == m {
                    assert(pick < m);
                    assert(pool@[pick as int] == jv);
                } else {
                    assert(pool@[p] == jv);
                }
            }
        }
    }
    proof {
        if pool@.len() == 0 {
            assert forall|j: int| 0 <= j < n implies chosen@[j] by {
                if !chosen@[j] {
                    assert(pool@.contains(j as usize));
                }
            }
        }
    }
    let mut out: Vec<usize> = Vec::new();
    for i in 0..n
        invariant
            n == weights@.len(),
            chosen@.len() == n,
            acc == sum_marked(weights@, chosen@),
            strictly_increasing(out@),
            forall|k: int| 0 <= k < out@.len() ==> out@[k] < i && chosen@[out@[k] as int],
            sum_at(weights@, out@) == sum_marked(weights@.take(i as int), chosen@.take(i as int)),
            forall|j: int| 0 <= j < i && chosen@[j] ==> out@.contains(j as usize),
            (forall|j: int| 0 <= j < i ==> chosen@[j]) ==> out@.len() == i,
    {
        proof {
            assert(weights@.take(i + 1).drop_last() =~= weights@.take(i as int));
            assert(chosen@.take(i + 1).drop_last() =~= chosen@.take(i as int));
        }
        if chosen[i] {
            let ghost prev_out = out@;
            out.push(i);
            proof {
                assert(out@.drop_last() =~= prev_out);
                assert(out@.last() == i);
                assert forall|j: int| 0 <= j < i + 1 && chosen@[j] implies out@.contains(
                    j as usize,
                ) by {
                    if j == i {
                        assert(out@[out@.len() - 1] == j as usize);
                    } else {
                        assert(prev_out.contains(j as usize));
                        let p = choose|p: int| 0 <= p < prev_out.len() && prev_out[p] == j as usize;
                        assert(out@[p] == j as usize);
                    }
                }
            }
        }
    }
    proof {
        assert(weights@.take(n as int) =~= weights@);
        assert(chosen@.take(n as int) =~= chosen@);
        lemma_sum_marked_le_total(weights@, chosen@);
        lemma_sum_marked_nonneg(weights@, chosen@);
        if forall|j: int| 0 <= j < n ==> chosen@[j] {
            lemma_sum_marked_all(weights@, chosen@);
        }
        if out@.len() > 0 {
            match last_pick {
                None => {
                    assert(chosen@[out@[0] as int]);
                },
                Some(p) => {
                    assert(out@.contains(p));
                    let k = choose|k: int| 0 <= k < out@.len() && out@[k] == p;
                    assert(acc - weights@[out@[k] as int] < weight_limit);
                },
            }
        }
    }
    (acc, out)
}

/// The per-bitfield weights: a uniform vector.
fn bitfield_weights(bitfields: &Vec<UncheckedBitfield>) -> (ws: Vec<u64>)
    ensures
        ws@.len() == bitfields@.len(),
        forall|i: int| 0 <= i < ws@.len() ==> ws@[i] == BITFIELD_WEIGHT,
        sum_weights(ws@) == bitfields_weight(bitfields@),
{
    let mut ws: Vec<u64> = Vec::new();
    let n = bitfields.len();
    for i in 0..n
        invariant
            n == bitfields@.len(),
            ws@.len() == i,
            forall|j: int| 0 <= j < i ==> ws@[j] == BITFIELD_WEIGHT,
            sum_weights(ws@) == i * BITFIELD_WEIGHT,
    {
        let ghost prev_ws = ws@;
        let w = bitfield_weight(&bitfields[i]);
        ws.push(w);
        proof {
            assert(ws@.drop_last() =~= prev_ws);
        }
    }
    ws
}

/// Confines the bundle's optimistic data to the weight budget.
///
/// If everything fits, everything is returned unchanged. Otherwise, when
/// the bitfields alone fit, all bitfields are kept and candidates are
/// sampled without replacement against the remaining budget; when even the
/// bitfields do not fit, all candidates are dropped and the bitfields are
/// sampled against the whole budget. Sampling accumulates cost until it
/// first reaches or exceeds its budget, and the kept items come back in
/// original order. The generator is seeded only from `entropy`, so
/// identical inputs always yield identical output.
pub fn apply_weight_limit(
    candidates: Vec<BackedCandidate>,
    bitfields: Vec<UncheckedBitfield>,
    entropy: [u8; 32],
    max_weight: u64,
) -> (r: (u64, Vec<BackedCandidate>, Vec<UncheckedBitfield>))
    requires
        total_weight(candidates@, bitfields@) <= u64::MAX,
    ensures
        total_weight(candidates@, bitfields@) <= max_weight ==> r.0 == total_weight(
            candidates@,
            bitfields@,
        ) && r.1@ == candidates@ && r.2@ == bitfields@,
        total_weight(candidates@, bitfields@) > max_weight ==> r.0 >= max_weight,
        total_weight(candidates@, bitfields@) > max_weight && bitfields_weight(bitfields@)
            <= max_weight ==> r.2@ == bitfields@ && (exists|idxs: Seq<usize>|
            strictly_increasing(idxs) && (forall|k: int|
                0 <= k < idxs.len() ==> idxs[k] < candidates@.len()) && r.1@ == selected_seq(
                candidates@,
                idxs,
            )) && r.0 == bitfields_weight(bitfields@) + candidates_weight(r.1@) && (r.1@.len() > 0
            ==> exists|k: int|
            0 <= k < r.1@.len() && r.0 - candidate_weight_spec(r.1@[k]) < max_weight),
        total_weight(candidates@, bitfields@) > max_weight && bitfields_weight(bitfields@)
            > max_weight ==> r.1@.len() == 0 && (exists|idxs: Seq<usize>|
            strictly_increasing(idxs) && (forall|k: int|
                0 <= k < idxs.len() ==> idxs[k] < bitfields@.len()) && r.2@ == selected_seq(
                bitfields@,
                idxs,
            )) && r.0 == bitfields_weight(r.2@) && (r.2@.len() > 0 ==> r.0 < max_weight
            + BITFIELD_WEIGHT),
{
    proof {
        lemma_candidates_weight_nonneg(candidates@);
    }
    let ws_c = candidate_weights(&candidates);
    let total_c = sum_vec(&ws_c);
    let total_b = bitfields.len() as u64 * BITFIELD_WEIGHT;
    let total = total_b + total_c;
    if total <= max_weight {
        return (total, candidates, bitfields);
    }
    let mut rng = crate::rng::chacha_from_seed(entropy);
    if total_b <= max_weight {
        let remaining = max_weight - total_b;
        let sel = random_sel(&mut rng, &ws_c, remaining);
        let acc = sel.0;
        let idxs = sel.1;
        let picked = select_by_indices(candidates, &idxs);
        let total_ret = acc + total_b;
        proof {
            lemma_selected_weight(candidates@, ws_c@, idxs@);
            if picked@.len() > 0 {
                let k = choose|k: int|
                    0 <= k < idxs@.len() && acc - ws_c@[idxs@[k] as int] < remaining;
                assert(picked@[k] == candidates@[idxs@[k] as int]);
                assert(total_ret - candidate_weight_spec(picked@[k]) < max_weight);
            }
        }
        return (total_ret, picked, bitfields);
    }
    let ws_b = bitfield_weights(&bitfields);
    let sel = random_sel(&mut rng, &ws_b, max_weight);
    let acc = sel.0;
    let idxs = sel.1;
    let picked = select_by_indices(bitfields, &idxs);
    proof {
        lemma_sum_at_uniform(ws_b@, idxs@, BITFIELD_WEIGHT);
        assert(bitfields_weight(picked@) == idxs@.len() * BITFIELD_WEIGHT);
        if picked@.len() > 0 {
            let k = choose|k: int|
                0 <= k < idxs@.len() && acc - ws_b@[idxs@[k] as int] < max_weight;
            assert(ws_b@[idxs@[k] as int] == BITFIELD_WEIGHT);
        }
    }
    (acc, Vec::new(), picked)
}

} // verus!
