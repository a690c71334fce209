//! Trusted interface to `hibitset`'s hierarchical bit set, which backs the
//! per-cell pattern sets and the rows of the compatibility relation.  The
//! contents of a set are named by `bit_set_elems`; every wrapper states how
//! the call it makes changes or reads that set of indices.

use vstd::prelude::*;

verus! {

#[verifier::external_type_specification]
#[verifier::external_body]
pub struct ExBitSet(hibitset::BitSet);

/// The set of indices a `hibitset::BitSet` holds.
pub uninterp spec fn bit_set_elems(b: hibitset::BitSet) -> Set<u32>;

/// Largest index a `hibitset::BitSet` accepts without panicking: four
/// layers of 64-bit words.  On a target with 32-bit words the crate's
/// own limit would be lower (`2^20`); every index used here stays below
/// `2^15`, far inside either bound.
pub const BIT_SET_INDEX_BOUND: u32 = 0x1000000;

/// Relies on `hibitset::BitSet::with_capacity`: a new set is empty, and
/// preallocation panics only above the index bound.
#[verifier::external_body]
pub fn bit_set_with_capacity(max: u32) -> (r: hibitset::BitSet)
    requires
        max <= BIT_SET_INDEX_BOUND,
    ensures
        bit_set_elems(r) == Set::<u32>::empty(),
{
    hibitset::BitSet::with_capacity(max)
}

/// Relies on `hibitset::BitSet::add`: inserts `id`, returning whether it
/// was already present; panics only above the index bound.
#[verifier::external_body]
pub fn bit_set_add(b: &mut hibitset::BitSet, id: u32) -> (r: bool)
    requires
        id < BIT_SET_INDEX_BOUND,
    ensures
        bit_set_elems(*final(b)) == bit_set_elems(*old(b)).insert(id),
        r == bit_set_elems(*old(b)).contains(id),
{
    b.add(id)
}

/// Relies on `hibitset::BitSet::remove`: removes `id`, returning whether
/// it was present; never panics.
#[verifier::external_body]
pub fn bit_set_remove(b: &mut hibitset::BitSet, id: u32) -> (r: bool)
    ensures
        bit_set_elems(*final(b)) == bit_set_elems(*old(b)).remove(id),
        r == bit_set_elems(*old(b)).contains(id),
{
    b.remove(id)
}

/// Relies on `hibitset::BitSet::contains`: membership test, never panics.
#[verifier::external_body]
pub fn bit_set_contains(b: &hibitset::BitSet, id: u32) -> (r: bool)
    ensures
        r == bit_set_elems(*b).contains(id),
{
    b.contains(id)
}

} // verus!
