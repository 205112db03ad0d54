//! Sums over weight sequences, index selections and marker sequences, with
//! the lemmas the weight limiter needs to account for its accumulator.

use vstd::prelude::*;

verus! {

/// Sum of a sequence of weights.
pub open spec fn sum_weights(ws: Seq<u64>) -> int
    decreases ws.len(),
{
    if ws.len() == 0 {
        0
    } else {
        sum_weights(ws.drop_last()) + ws.last()
    }
}

/// Sum of the weights at the given positions.
pub open spec fn sum_at(ws: Seq<u64>, idxs: Seq<usize>) -> int
    decreases idxs.len(),
{
    if idxs.len() == 0 {
        0
    } else {
        sum_at(ws, idxs.drop_last()) + ws[idxs.last() as int]
    }
}

/// Sum of the weights at the marked positions; `marks` runs in step with
/// `ws`, and positions beyond `marks` count as unmarked.
pub open spec fn sum_marked(ws: Seq<u64>, marks: Seq<bool>) -> int
    decreases ws.len(),
{
    if ws.len() == 0 {
        0
    } else {
        sum_marked(ws.drop_last(), marks.drop_last())
            + if marks.len() == ws.len() && marks.last() { ws.last() } else { 0 }
    }
}

/// The elements of `idxs` are strictly increasing.
pub open spec fn strictly_increasing(idxs: Seq<usize>) -> bool {
    forall|i: int, j: int| 0 <= i < j < idxs.len() ==> idxs[i] < idxs[j]
}

/// The subsequence of `s` picked out by the positions in `idxs`.
pub open spec fn selected_seq<T>(s: Seq<T>, idxs: Seq<usize>) -> Seq<T> {
    Seq::new(idxs.len(), |k: int| s[idxs[k] as int])
}

/// A sum of weights is never negative.
pub proof fn lemma_sum_weights_nonneg(ws: Seq<u64>)
    ensures
        sum_weights(ws) >= 0,
    decreases ws.len(),
{
    if ws.len() > 0 {
        lemma_sum_weights_nonneg(ws.drop_last());
    }
}

/// A marked sum is never negative.
pub proof fn lemma_sum_marked_nonneg(ws: Seq<u64>, marks: Seq<bool>)
    ensures
        sum_marked(ws, marks) >= 0,
    decreases ws.len(),
{
    if ws.len() > 0 {
        lemma_sum_marked_nonneg(ws.drop_last(), marks.drop_last());
    }
}

/// A marked sum never exceeds the sum of all weights.
pub proof fn lemma_sum_marked_le_total(ws: Seq<u64>, marks: Seq<bool>)
    ensures
        sum_marked(ws, marks) <= sum_weights(ws),
    decreases ws.len(),
{
    if ws.len() > 0 {
        lemma_sum_marked_le_total(ws.drop_last(), marks.drop_last());
    }
}

/// Marking one more position adds exactly that position's weight.
pub proof fn lemma_sum_marked_set(ws: Seq<u64>, marks: Seq<bool>, j: int)
    requires
        marks.len() == ws.len(),
        0 <= j < ws.len(),
        !marks[j],
    ensures
        sum_marked(ws, marks.update(j, true)) == sum_marked(ws, marks) + ws[j],
    decreases ws.len(),
{
    let updated = marks.update(j, true);
    if j == ws.len() - 1 {
        assert(updated.drop_last() =~= marks.drop_last());
    } else {
        assert(updated.drop_last() =~= marks.drop_last().update(j, true));
        lemma_sum_marked_set(ws.drop_last(), marks.drop_last(), j);
    }
}

/// An all-false marker sequence sums to nothing.
pub proof fn lemma_sum_marked_none(ws: Seq<u64>, marks: Seq<bool>)
    requires
        marks.len() == ws.len(),
        forall|i: int| 0 <= i < marks.len() ==> !marks[i],
    ensures
        sum_marked(ws, marks) == 0,
    decreases ws.len(),
{
    if ws.len() > 0 {
        lemma_sum_marked_none(ws.drop_last(), marks.drop_last());
    }
}

/// A prefix sums to no more than the whole.
pub proof fn lemma_sum_take_le(ws: Seq<u64>, i: int)
    requires
        0 <= i <= ws.len(),
    ensures
        sum_weights(ws.take(i)) <= sum_weights(ws),
    decreases ws.len(),
{
    if i == ws.len() {
        assert(ws.take(i) =~= ws);
    } else {
        assert(ws.drop_last().take(i) =~= ws.take(i));
        lemma_sum_take_le(ws.drop_last(), i);
    }
}

/// An all-true marker sequence sums to the whole.
pub proof fn lemma_sum_marked_all(ws: Seq<u64>, marks: Seq<bool>)
    requires
        marks.len() == ws.len(),
        forall|i: int| 0 <= i < marks.len() ==> marks[i],
    ensures
        sum_marked(ws, marks) == sum_weights(ws),
    decreases ws.len(),
{
    if ws.len() > 0 {
        lemma_sum_marked_all(ws.drop_last(), marks.drop_last());
    }
}

/// When every weight equals `w`, a selection sums to its length times `w`.
pub proof fn lemma_sum_at_uniform(ws: Seq<u64>, idxs: Seq<usize>, w: u64)
    requires
        forall|i: int| 0 <= i < ws.len() ==> ws[i] == w,
        forall|k: int| 0 <= k < idxs.len() ==> idxs[k] < ws.len(),
    ensures
        sum_at(ws, idxs) == idxs.len() * w,
    decreases idxs.len(),
{
    if idxs.len() > 0 {
        lemma_sum_at_uniform(ws, idxs.drop_last(), w);
        assert(idxs.len() * w == (idxs.len() - 1) * w + w) by (nonlinear_arith);
    }
}

/// `t` occurs inside `s` in order, possibly with gaps.
pub open spec fn is_subseq_of<T>(t: Seq<T>, s: Seq<T>) -> bool
    decreases s.len(), t.len(),
{
    if t.len() == 0 {
        true
    } else if s.len() == 0 {
        false
    } else if t[0] == s[0] {
        is_subseq_of(t.drop_first(), s.drop_first())
    } else {
        is_subseq_of(t, s.drop_first())
    }
}

/// Every element of a subsequence is an element of the larger sequence.
pub proof fn lemma_subseq_contains<T>(t: Seq<T>, s: Seq<T>)
    requires
        is_subseq_of(t, s),
    ensures
        forall|i: int| 0 <= i < t.len() ==> s.contains(#[trigger] t[i]),
    decreases s.len(), t.len(),
{
    if t.len() == 0 {
    } else if t[0] == s[0] {
        lemma_subseq_contains(t.drop_first(), s.drop_first());
        assert forall|i: int| 0 <= i < t.len() implies s.contains(#[trigger] t[i]) by {
            if i == 0 {
                assert(s[0] == t[0]);
            } else {
                assert(t.drop_first()[i - 1] == t[i]);
                assert(s.drop_first().contains(t[i]));
                let w = choose|k: int|
                    0 <= k < s.drop_first().len() && s.drop_first()[k] == t[i];
                assert(s[w + 1] == t[i]);
            }
        }
    } else {
        lemma_subseq_contains(t, s.drop_first());
        assert forall|i: int| 0 <= i < t.len() implies s.contains(#[trigger] t[i]) by {
            assert(s.drop_first().contains(t[i]));
            let w = choose|k: int| 0 <= k < s.drop_first().len() && s.drop_first()[k] == t[i];
            assert(s[w + 1] == t[i]);
        }
    }
}

} // verus!
