//! The disputed-core bit vector, stored in a packed bit vector from the
//! `bitvec` crate. The vector is opaque to the verifier; `bits_of` names its
//! contents, and small trusted wrappers state what each operation does to
//! them, as the crate's sources show.

use vstd::prelude::*;

verus! {

/// One bit per availability core; a set bit marks a core whose occupant was
/// just concluded invalid and must be excluded from availability accounting.
#[verifier::external_body]
pub struct DisputedBitfield {
    bits: bitvec::vec::BitVec<bitvec::order::Lsb0, u8>,
}

/// The bits a disputed-core bitfield holds, in core-index order.
pub uninterp spec fn bits_of(b: DisputedBitfield) -> Seq<bool>;

impl DisputedBitfield {
    /// The bits of the underlying vector, in core-index order.
    pub open spec fn bits(&self) -> Seq<bool> {
        bits_of(*self)
    }

    /// A bitfield of `n` cores, none of them disputed.
    ///
    /// Relies on `BitVec::repeat`: a vector of `n` copies of the given bit.
    #[verifier::external_body]
    pub fn zeros(n: usize) -> (r: Self)
        ensures
            bits_of(r) == Seq::new(n as nat, |i: int| false),
    {
        DisputedBitfield { bits: bitvec::vec::BitVec::repeat(false, n) }
    }

    /// How many cores the bitfield covers.
    ///
    /// Relies on `BitSlice::len`: the number of live bits.
    #[verifier::external_body]
    pub fn len(&self) -> (r: usize)
        ensures
            r == bits_of(*self).len(),
    {
        self.bits.len()
    }

    /// Whether the core at `index` is marked disputed.
    ///
    /// Relies on the `Index` impl of `BitSlice`, which panics out of
    /// bounds, so the bound is required here.
    #[verifier::external_body]
    pub fn bit(&self, index: usize) -> (r: bool)
        requires
            index < bits_of(*self).len(),
        ensures
            r == bits_of(*self)[index as int],
    {
        self.bits[index]
    }

    /// Marks the core at `index` as disputed or not.
    ///
    /// Relies on `BitSlice::set`: writes one bit in place; panics out of
    /// bounds, so the bound is required here.
    #[verifier::external_body]
    pub fn set_bit(&mut self, index: usize, value: bool)
        requires
            index < bits_of(*old(self)).len(),
        ensures
            bits_of(*final(self)) == bits_of(*old(self)).update(index as int, value),
    {
        self.bits.set(index, value)
    }
}

} // verus!
