//! The packed bit storage of a grid, held in a `fixedbitset::FixedBitSet`.
use fixedbitset::FixedBitSet;
use vstd::prelude::*;

verus! {

#[verifier::external_type_specification]
#[verifier::external_body]
pub struct ExFixedBitSet(FixedBitSet);

/// The bits of a set, in order: bit `i` is enabled exactly when entry `i` is `true`.
/// Its length is the set's length in bits.
pub uninterp spec fn bits_of(s: FixedBitSet) -> Seq<bool>;

/// Whether bit `k` of a storage word is one.
pub open spec fn word_bit(w: u32, k: nat) -> bool {
    (w >> (k as u32)) & 1u32 == 1u32
}

/// Relies on FixedBitSet::with_capacity: `bits` bits, all clear.
#[verifier::external_body]
pub(crate) fn with_capacity(bits: usize) -> (r: FixedBitSet)
    ensures
        bits_of(r) == Seq::new(bits as nat, |i: int| false),
{
    FixedBitSet::with_capacity(bits)
}

/// Relies on FixedBitSet::contains: whether an in-range bit is enabled.
#[verifier::external_body]
pub(crate) fn contains(s: &FixedBitSet, bit: usize) -> (r: bool)
    requires
        bit < bits_of(*s).len(),
    ensures
        r == bits_of(*s)[bit as int],
{
    s.contains(bit)
}

/// Relies on FixedBitSet::set: enables or clears one in-range bit, leaving the
/// others and the length as they were (it panics past the length).
#[verifier::external_body]
pub(crate) fn set(s: &mut FixedBitSet, bit: usize, enabled: bool)
    requires
        bit < bits_of(*old(s)).len(),
    ensures
        bits_of(*final(s)) == bits_of(*old(s)).update(bit as int, enabled),
{
    s.set(bit, enabled)
}

/// Relies on FixedBitSet::as_slice: the backing words, 32 bits each, bit `i`
/// of the set being bit `i % 32` of word `i / 32`.
#[verifier::external_body]
pub(crate) fn as_slice(s: &FixedBitSet) -> (r: &[u32])
    ensures
        r@.len() == (bits_of(*s).len() + 31) / 32,
        forall|i: int|
            0 <= i < bits_of(*s).len() ==> #[trigger] bits_of(*s)[i] == word_bit(
                r@[i / 32],
                (i % 32) as nat,
            ),
{
    s.as_slice()
}

} // verus!
