//! Sanitizing availability bitfields. One pass over the submitted list
//! checks, per item: payload length, strictly increasing validator index
//! (order and uniqueness at once), validator index in bounds, and — in
//! strict mode only — the signature under the block's signing context.
//! Lenient mode drops offenders and always succeeds; strict mode aborts on
//! the first violation.

use vstd::prelude::*;
use crate::bits::DisputedBitfield;
use crate::types::{same_hash, Hash32, UncheckedBitfield};

verus! {

/// Whether a whole-list pass drops offenders (`Lenient`) or aborts on the
/// first violation (`Strict`).
#[derive(Clone, Copy, Debug, PartialEq, Eq)]
pub enum FilterMode {
    Lenient,
    Strict,
}

/// Why a bitfield, or the whole strict pass, was rejected.
#[derive(Clone, Copy, Debug, PartialEq, Eq)]
pub enum BitfieldError {
    WrongBitfieldSize,
    BitfieldDuplicateOrUnordered,
    ValidatorIndexOutOfBounds,
    InvalidBitfieldSignature,
}

/// The payload carries exactly one bit per active core.
pub open spec fn size_ok(b: UncheckedBitfield, expected_bits: nat) -> bool {
    b.payload@.len() == expected_bits
}

/// The validator index strictly exceeds the last accepted one, which
/// enforces order and uniqueness in one pass.
pub open spec fn order_ok(b: UncheckedBitfield, last: Option<u32>) -> bool {
    match last {
        Some(l) => l < b.validator_index,
        None => true,
    }
}

/// The validator index lies within the active validator set.
pub open spec fn bounds_ok(b: UncheckedBitfield, n_validators: nat) -> bool {
    (b.validator_index as nat) < n_validators
}

/// The signature attests to this block's signing context under the key of
/// the validator the bitfield claims to come from.
pub open spec fn sig_ok(
    b: UncheckedBitfield,
    parent_hash: Hash32,
    session: u32,
    validators: Seq<u64>,
) -> bool
    recommends
        bounds_ok(b, validators.len()),
{
    &&& b.signature.signer == validators[b.validator_index as int]
    &&& same_hash(b.signature.parent_hash, parent_hash)
    &&& b.signature.session == session
}

/// All checks a lenient pass applies to one item.
pub open spec fn lenient_ok(
    b: UncheckedBitfield,
    expected_bits: nat,
    n_validators: nat,
    last: Option<u32>,
) -> bool {
    size_ok(b, expected_bits) && order_ok(b, last) && bounds_ok(b, n_validators)
}

/// What a lenient pass keeps: the offenders are dropped, and `last` tracks
/// the most recently accepted validator index.
pub open spec fn lenient_filter(
    s: Seq<UncheckedBitfield>,
    expected_bits: nat,
    n_validators: nat,
    last: Option<u32>,
) -> Seq<UncheckedBitfield>
    decreases s.len(),
{
    if s.len() == 0 {
        Seq::empty()
    } else if lenient_ok(s[0], expected_bits, n_validators, last) {
        seq![s[0]] + lenient_filter(
            s.drop_first(),
            expected_bits,
            n_validators,
            Some(s[0].validator_index),
        )
    } else {
        lenient_filter(s.drop_first(), expected_bits, n_validators, last)
    }
}

/// What a strict pass returns: the first violation aborts the whole call,
/// and the checks run in the order the lenient pass applies them, with the
/// signature checked last.
pub open spec fn strict_filter(
    s: Seq<UncheckedBitfield>,
    expected_bits: nat,
    n_validators: nat,
    parent_hash: Hash32,
    session: u32,
    validators: Seq<u64>,
    last: Option<u32>,
) -> Result<Seq<UncheckedBitfield>, BitfieldError>
    decreases s.len(),
{
    if s.len() == 0 {
        Ok(Seq::empty())
    } else if !size_ok(s[0], expected_bits) {
        Err(BitfieldError::WrongBitfieldSize)
    } else if !order_ok(s[0], last) {
        Err(BitfieldError::BitfieldDuplicateOrUnordered)
    } else if !bounds_ok(s[0], n_validators) {
        Err(BitfieldError::ValidatorIndexOutOfBounds)
    } else if !sig_ok(s[0], parent_hash, session, validators) {
        Err(BitfieldError::InvalidBitfieldSignature)
    } else {
        match strict_filter(
            s.drop_first(),
            expected_bits,
            n_validators,
            parent_hash,
            session,
            validators,
            Some(s[0].validator_index),
        ) {
            Ok(t) => Ok(seq![s[0]] + t),
            Err(e) => Err(e),
        }
    }
}

/// The whole call on a given mode: strict mode first demands that the
/// disputed-core bitfield covers exactly the active cores.
pub open spec fn sanitize_bitfields_spec(
    mode: FilterMode,
    s: Seq<UncheckedBitfield>,
    disputed_len: nat,
    expected_bits: nat,
    parent_hash: Hash32,
    session: u32,
    validators: Seq<u64>,
) -> Result<Seq<UncheckedBitfield>, BitfieldError> {
    match mode {
        FilterMode::Lenient => Ok(
            lenient_filter(s, expected_bits, validators.len(), None),
        ),
        FilterMode::Strict => if disputed_len != expected_bits {
            Err(BitfieldError::WrongBitfieldSize)
        } else {
            strict_filter(
                s,
                expected_bits,
                validators.len(),
                parent_hash,
                session,
                validators,
                None,
            )
        },
    }
}

/// Maps the executable result to the specification's view of it.
pub open spec fn bitfields_result_view(
    r: Result<Vec<UncheckedBitfield>, BitfieldError>,
) -> Result<Seq<UncheckedBitfield>, BitfieldError> {
    match r {
        Ok(v) => Ok(v@),
        Err(e) => Err(e),
    }
}

/// Filters availability bitfields, or aborts strictly at the first
/// violation. Lenient mode never verifies signatures: that is delegated to
/// strict on-chain processing.
pub fn sanitize_bitfields(
    mode: FilterMode,
    unchecked: Vec<UncheckedBitfield>,
    disputed_bits: &DisputedBitfield,
    expected_bits: usize,
    parent_hash: Hash32,
    session: u32,
    validators: &Vec<u64>,
) -> (r: Result<Vec<UncheckedBitfield>, BitfieldError>)
    ensures
        bitfields_result_view(r) == sanitize_bitfields_spec(
            mode,
            unchecked@,
            disputed_bits.bits().len(),
            expected_bits as nat,
            parent_hash,
            session,
            validators@,
        ),
        matches!(mode, FilterMode::Lenient) ==> r is Ok,
{
    let ghost orig = unchecked@;
    let strict = matches!(mode, FilterMode::Strict);
    if strict && disputed_bits.len() != expected_bits {
        return Err(BitfieldError::WrongBitfieldSize);
    }
    let mut rest = unchecked;
    let mut out: Vec<UncheckedBitfield> = Vec::new();
    let mut last_index: Option<u32> = None;
    while rest.len() > 0
        invariant
            orig == unchecked@,
            strict == matches!(mode, FilterMode::Strict),
            strict ==> disputed_bits.bits().len() == expected_bits,
            !strict ==> lenient_filter(orig, expected_bits as nat, validators@.len(), None)
                == out@ + lenient_filter(
                    rest@,
                    expected_bits as nat,
                    validators@.len(),
                    last_index,
                ),
            strict ==> strict_filter(
                orig,
                expected_bits as nat,
                validators@.len(),
                parent_hash,
                session,
                validators@,
                None,
            ) == (match strict_filter(
                rest@,
                expected_bits as nat,
                validators@.len(),
                parent_hash,
                session,
                validators@,
                last_index,
            ) {
                Ok(t) => Ok::<Seq<UncheckedBitfield>, BitfieldError>(out@ + t),
                Err(e) => Err::<Seq<UncheckedBitfield>, BitfieldError>(e),
            }),
        decreases rest@.len(),
    {
        let ghost prev_rest = rest@;
        let ghost prev_last = last_index;
        let ghost prev_out = out@;
        let ghost eb = expected_bits as nat;
        let ghost nv = validators@.len();
        let b = rest.remove(0);
        proof {
            assert(prev_rest[0] == b);
            assert(prev_rest.drop_first() =~= rest@);
        }
        let sz = b.payload.len() == expected_bits;
        let ord = match last_index {
            Some(l) => l < b.validator_index,
            None => true,
        };
        let bnd = (b.validator_index as usize) < validators.len();
        if strict {
            if !sz {
                proof {
                    assert(strict_filter(prev_rest, eb, nv, parent_hash, session, validators@,
                        prev_last) == Err::<Seq<UncheckedBitfield>, BitfieldError>(
                        BitfieldError::WrongBitfieldSize,
                    ));
                }
                return Err(BitfieldError::WrongBitfieldSize);
            }
            if !ord {
                return Err(BitfieldError::BitfieldDuplicateOrUnordered);
            }
            if !bnd {
                return Err(BitfieldError::ValidatorIndexOutOfBounds);
            }
            let key = validators[b.validator_index as usize];
            let sig_good = b.signature.signer == key && hash_eq_sig(&b, &parent_hash)
                && b.signature.session == session;
            if !sig_good {
                return Err(BitfieldError::InvalidBitfieldSignature);
            }
            last_index = Some(b.validator_index);
            out.push(b);
            proof {
                assert(out@ =~= prev_out.push(b));
                match strict_filter(rest@, eb, nv, parent_hash, session, validators@, last_index) {
                    Ok(t) => {
                        assert(prev_out + (seq![b] + t) =~= out@ + t);
                    },
                    Err(e) => {},
                }
            }
        } else {
            if sz && ord && bnd {
                last_index = Some(b.validator_index);
                out.push(b);
                proof {
                    assert(out@ =~= prev_out.push(b));
                    let tail = lenient_filter(rest@, eb, nv, last_index);
                    assert(prev_out + (seq![b] + tail) =~= out@ + tail);
                }
            }
        }
    }
    Ok(out)
}

/// A lenient pass only shrinks the list, its output is strictly increasing
/// by validator index, every kept item has the right payload size and an
/// in-bounds validator index, and every kept index exceeds `last`.
pub proof fn lemma_lenient_filter_monotone(
    s: Seq<UncheckedBitfield>,
    expected_bits: nat,
    n_validators: nat,
    last: Option<u32>,
)
    ensures
        lenient_filter(s, expected_bits, n_validators, last).len() <= s.len(),
        forall|i: int, j: int|
            0 <= i < j < lenient_filter(s, expected_bits, n_validators, last).len()
                ==> lenient_filter(s, expected_bits, n_validators, last)[i].validator_index
                < lenient_filter(s, expected_bits, n_validators, last)[j].validator_index,
        forall|i: int|
            0 <= i < lenient_filter(s, expected_bits, n_validators, last).len() ==> size_ok(
                #[trigger] lenient_filter(s, expected_bits, n_validators, last)[i],
                expected_bits,
            ) && bounds_ok(lenient_filter(s, expected_bits, n_validators, last)[i], n_validators),
        match last {
            Some(l) => forall|i: int|
                0 <= i < lenient_filter(s, expected_bits, n_validators, last).len() ==> l
                    < #[trigger] lenient_filter(
                    s,
                    expected_bits,
                    n_validators,
                    last,
                )[i].validator_index,
            None => true,
        },
    decreases s.len(),
{
    if s.len() == 0 {
    } else {
        let b = s[0];
        let rest = s.drop_first();
        if lenient_ok(b, expected_bits, n_validators, last) {
            lemma_lenient_filter_monotone(rest, expected_bits, n_validators, Some(b.validator_index));
            let tail = lenient_filter(rest, expected_bits, n_validators, Some(b.validator_index));
            let out = lenient_filter(s, expected_bits, n_validators, last);
            assert(out == seq![b] + tail);
            assert(out[0] == b);
            assert(forall|i: int| 1 <= i < out.len() ==> out[i] == tail[i - 1]);
        } else {
            lemma_lenient_filter_monotone(rest, expected_bits, n_validators, last);
        }
    }
}

/// An already sorted, duplicate-free list of correctly sized bitfields
/// whose validator indices are all in bounds (and all above `last`) passes
/// a lenient pass unchanged.
pub proof fn lemma_lenient_filter_fixed_point(
    s: Seq<UncheckedBitfield>,
    expected_bits: nat,
    n_validators: nat,
    last: Option<u32>,
)
    requires
        forall|i: int|
            0 <= i < s.len() ==> size_ok(#[trigger] s[i], expected_bits) && bounds_ok(
                s[i],
                n_validators,
            ),
        forall|i: int, j: int|
            0 <= i < j < s.len() ==> s[i].validator_index < s[j].validator_index,
        match last {
            Some(l) => forall|i: int| 0 <= i < s.len() ==> l < #[trigger] s[i].validator_index,
            None => true,
        },
    ensures
        lenient_filter(s, expected_bits, n_validators, last) == s,
    decreases s.len(),
{
    if s.len() == 0 {
        assert(lenient_filter(s, expected_bits, n_validators, last) =~= s);
    } else {
        let b = s[0];
        let rest = s.drop_first();
        assert(forall|i: int| 0 <= i < rest.len() ==> rest[i] == s[i + 1]);
        lemma_lenient_filter_fixed_point(rest, expected_bits, n_validators, Some(b.validator_index));
        assert(lenient_filter(s, expected_bits, n_validators, last) =~= s);
    }
}

/// Running the lenient pass on its own output changes nothing: one pass
/// already leaves the list sorted, duplicate free and correctly sized.
pub proof fn lemma_lenient_filter_idempotent(
    s: Seq<UncheckedBitfield>,
    expected_bits: nat,
    n_validators: nat,
)
    ensures
        lenient_filter(
            lenient_filter(s, expected_bits, n_validators, None),
            expected_bits,
            n_validators,
            None,
        ) == lenient_filter(s, expected_bits, n_validators, None),
{
    lemma_lenient_filter_monotone(s, expected_bits, n_validators, None);
    lemma_lenient_filter_fixed_point(
        lenient_filter(s, expected_bits, n_validators, None),
        expected_bits,
        n_validators,
        None,
    );
}

/// Compares the parent hash a signature attests to with the block's.
fn hash_eq_sig(b: &UncheckedBitfield, parent_hash: &Hash32) -> (r: bool)
    ensures
        r == same_hash(b.signature.parent_hash, *parent_hash),
{
    crate::types::hash_eq(&b.signature.parent_hash, parent_hash)
}

} // verus!
