use vstd::prelude::*;

verus! {

/// A set of small indices, held in a `bit_set::BitSet` kept in a hidden
/// field (the type's parameter is bound by the crate's `BitBlock` trait);
/// the functions below say what each call does to the indices held.
#[verifier::external_body]
pub struct IdBitSet {
    bits: bit_set::BitSet,
}

/// The indices an `IdBitSet` holds.
pub uninterp spec fn bitset_contents(s: IdBitSet) -> Set<usize>;

/// `bit_set::BitSet::with_capacity`: a set with room for `nbits` indices that
/// holds none of them.
#[verifier::external_body]
pub(crate) fn bitset_with_capacity(nbits: usize) -> (r: IdBitSet)
    ensures
        bitset_contents(r) == Set::<usize>::empty(),
{
    IdBitSet { bits: bit_set::BitSet::with_capacity(nbits) }
}

/// `bit_set::BitSet::insert`: adds `value` and answers whether it was absent.
/// The crate grows its bit vector to `value + 1` bits, which overflows (and
/// panics) when `value` is `usize::MAX`; that input is left out. Where the
/// grown bit vector cannot be allocated the process aborts, which nothing
/// here states.
#[verifier::external_body]
pub(crate) fn bitset_insert(s: &mut IdBitSet, value: usize) -> (r: bool)
    requires
        value < usize::MAX,
    ensures
        bitset_contents(*final(s)) == bitset_contents(*old(s)).insert(value),
        r == !bitset_contents(*old(s)).contains(value),
{
    s.bits.insert(value)
}

/// `bit_set::BitSet::remove`: removes `value` and answers whether it was present.
#[verifier::external_body]
pub(crate) fn bitset_remove(s: &mut IdBitSet, value: usize) -> (r: bool)
    ensures
        bitset_contents(*final(s)) == bitset_contents(*old(s)).remove(value),
        r == bitset_contents(*old(s)).contains(value),
{
    s.bits.remove(value)
}

/// `PartialEq::eq` of `bit_set::BitSet`: two sets are equal when they hold the
/// same indices, whatever the length of their bit vectors.
#[verifier::external_body]
pub(crate) fn bitset_eq(a: &IdBitSet, b: &IdBitSet) -> (r: bool)
    ensures
        r == (bitset_contents(*a) == bitset_contents(*b)),
{
    a.bits == b.bits
}

/// `Clone::clone` of `bit_set::BitSet`: a copy that holds the same indices.
#[verifier::external_body]
pub(crate) fn bitset_clone(s: &IdBitSet) -> (r: IdBitSet)
    ensures
        bitset_contents(r) == bitset_contents(*s),
{
    IdBitSet { bits: s.bits.clone() }
}

} // verus!
