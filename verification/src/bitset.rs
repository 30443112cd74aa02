//! What this library relies on of the bit set that records registered PIDs.
//!
//! Nothing here is proved: each item states what the `fixedbitset` crate does.

use fixedbitset::FixedBitSet;
use vstd::prelude::*;

verus! {

#[verifier::external_type_specification]
#[verifier::external_body]
pub struct ExFixedBitSet(FixedBitSet);

/// The bits that are enabled in a bit set.
pub uninterp spec fn bitset_ones(bits: FixedBitSet) -> Set<int>;

/// The number of bits that a bit set spans, enabled or not.
pub uninterp spec fn bitset_len(bits: FixedBitSet) -> nat;

/// `FixedBitSet::with_capacity` makes a set that spans `bits` bits, none of
/// them enabled.
pub assume_specification[ FixedBitSet::with_capacity ](bits: usize) -> (set: FixedBitSet)
    ensures
        bitset_ones(set) == Set::<int>::empty(),
        bitset_len(set) == bits,
;

/// `FixedBitSet::grow` makes the set span `bits` bits where it spanned fewer,
/// and enables or disables none.
pub assume_specification[ FixedBitSet::grow ](set: &mut FixedBitSet, bits: usize)
    ensures
        bitset_ones(*final(set)) == bitset_ones(*old(set)),
        bitset_len(*final(set)) == if bits > bitset_len(*old(set)) {
            bits as nat
        } else {
            bitset_len(*old(set))
        },
;

/// `FixedBitSet::contains` tells whether `bit` is enabled.
pub assume_specification[ FixedBitSet::contains ](set: &FixedBitSet, bit: usize) -> (r: bool)
    ensures
        r == bitset_ones(*set).contains(bit as int),
;

/// `FixedBitSet::insert` enables `bit` and leaves the other bits as they
/// were.  It panics where `bit` lies outside the set.
pub assume_specification[ FixedBitSet::insert ](set: &mut FixedBitSet, bit: usize)
    requires
        bit < bitset_len(*old(set)),
    ensures
        bitset_ones(*final(set)) == bitset_ones(*old(set)).insert(bit as int),
        bitset_len(*final(set)) == bitset_len(*old(set)),
;

/// `FixedBitSet::set` enables or disables `bit` and leaves the other bits as
/// they were.  It panics where `bit` lies outside the set.
pub assume_specification[ FixedBitSet::set ](set: &mut FixedBitSet, bit: usize, enabled: bool)
    requires
        bit < bitset_len(*old(set)),
    ensures
        bitset_ones(*final(set)) == if enabled {
            bitset_ones(*old(set)).insert(bit as int)
        } else {
            bitset_ones(*old(set)).remove(bit as int)
        },
        bitset_len(*final(set)) == bitset_len(*old(set)),
;

} // verus!
