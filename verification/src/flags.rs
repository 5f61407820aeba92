use vstd::prelude::*;
use bitvec::vec::BitVec;

verus! {

/// A fixed-length sequence of flags, stored one bit each in a `bitvec`
/// bit-vector. Its contents are named by `flag_bits`; the functions below,
/// which call `bitvec`, state what they do to them.
#[verifier::external_body]
#[derive(Debug)]
pub struct Flags {
    bits: BitVec,
}

impl Clone for Flags {
    /// `Clone` of `BitVec`: a bit-vector holding the same bits.
    #[verifier::external_body]
    fn clone(&self) -> (res: Self)
        ensures
            flag_bits(res) == flag_bits(*self),
    {
        Flags { bits: self.bits.clone() }
    }
}

/// The flags held, in order.
pub uninterp spec fn flag_bits(v: Flags) -> Seq<bool>;

/// The number of `true` bits in a sequence.
pub open spec fn count_true(s: Seq<bool>) -> nat
    decreases s.len(),
{
    if s.len() == 0 {
        0
    } else {
        count_true(s.drop_last()) + if s.last() {
            1nat
        } else {
            0nat
        }
    }
}

/// `BitVec::repeat`: a bit-vector of `len` copies of `bit`. The crate panics
/// when `len` exceeds the largest encodable length, `usize::MAX >> 3`.
#[verifier::external_body]
pub(crate) fn flags_repeat(bit: bool, len: usize) -> (res: Flags)
    requires
        len <= usize::MAX / 8,
    ensures
        flag_bits(res) == Seq::new(len as nat, |i: int| bit),
{
    Flags { bits: BitVec::repeat(bit, len) }
}

/// `BitSlice::set` on a bit-vector: writes `value` at `index`; the crate
/// panics when `index` is not below the length.
#[verifier::external_body]
pub(crate) fn flags_set(v: &mut Flags, index: usize, value: bool)
    requires
        index < flag_bits(*old(v)).len(),
    ensures
        flag_bits(*final(v)) == flag_bits(*old(v)).update(index as int, value),
{
    v.bits.set(index, value)
}

/// `BitSlice::count_ones` on a bit-vector: the number of bits set.
#[verifier::external_body]
pub(crate) fn flags_count_ones(v: &Flags) -> (res: usize)
    ensures
        res == count_true(flag_bits(*v)),
{
    v.bits.count_ones()
}

/// Indexing a bit-vector (`Index<usize>` of `BitSlice`): the bit at `index`;
/// the crate panics when `index` is not below the length.
#[verifier::external_body]
pub(crate) fn flags_get(v: &Flags, index: usize) -> (res: bool)
    requires
        index < flag_bits(*v).len(),
    ensures
        res == flag_bits(*v)[index as int],
{
    v.bits[index]
}

} // verus!
