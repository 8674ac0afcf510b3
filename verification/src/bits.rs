//! The packed bit store: a fixed-length array of single-bit slots, kept in a
//! `bitvec` bit-vector over bytes. The store is created once with every slot
//! false; slots are only ever read or set, never removed.
//!
//! Verus sees the bit-vector through `bits_of`, the sequence of booleans it
//! holds, and through one trusted wrapper per `bitvec` call.

use vstd::prelude::*;

verus! {

/// A packed array of single-bit slots, backed by a `bitvec` bit-vector over
/// bytes. The struct is opaque to Verus; everything it proves about a store
/// goes through `bits_of` and the trusted wrappers below.
#[verifier::external_body]
pub struct BitStore {
    inner: bitvec::vec::BitVec<u8, bitvec::order::Lsb0>,
}

/// The sequence of booleans a bit store holds, index by index.
pub uninterp spec fn bits_of(v: BitStore) -> Seq<bool>;

/// The largest length a `bitvec` bit-vector over bytes accepts.
pub open spec fn spec_max_bits() -> int {
    usize::MAX as int / 8
}

impl BitStore {
    /// Relies on `BitVec::repeat`: a bit-vector of `len` copies of `bit`.
    /// Lengths above `BitSlice::MAX_BITS` (`usize::MAX >> 3` for byte
    /// storage) are excluded, since `repeat` panics on them.
    #[verifier::external_body]
    pub(crate) fn repeat(bit: bool, len: usize) -> (r: BitStore)
        requires
            len as int <= spec_max_bits(),
        ensures
            bits_of(r) == Seq::new(len as nat, |i: int| bit),
    {
        BitStore { inner: bitvec::vec::BitVec::repeat(bit, len) }
    }

    /// Relies on `BitVec::len` (through `BitSlice::len`): the number of
    /// bits held.
    #[verifier::external_body]
    pub(crate) fn len(&self) -> (r: usize)
        ensures
            r == bits_of(*self).len(),
    {
        self.inner.len()
    }

    /// Relies on `BitSlice`'s `Index<usize>` impl: the bit at `index`,
    /// which panics when `index` is out of range, so that case is excluded.
    #[verifier::external_body]
    pub(crate) fn get(&self, index: usize) -> (r: bool)
        requires
            index < bits_of(*self).len(),
        ensures
            r == bits_of(*self)[index as int],
    {
        self.inner[index]
    }

    /// Relies on `BitSlice::set`: writes `value` into the bit at `index`
    /// and leaves every other bit alone; it panics when `index` is out of
    /// range, so that case is excluded.
    #[verifier::external_body]
    pub(crate) fn set(&mut self, index: usize, value: bool)
        requires
            index < bits_of(*old(self)).len(),
        ensures
            bits_of(*final(self)) == bits_of(*old(self)).update(index as int, value),
    {
        self.inner.set(index, value);
    }
}

} // verus!
