//! Storage of the trace bit stream in a `bitvec` bit-vector.
//!
//! [`BitStack`] holds the vector. The decoder uses it as a stack whose
//! last bit is the next bit of the stream, so that taking a bit is a `pop`.

use bitvec::order::Lsb0;
use bitvec::vec::BitVec;
use vstd::prelude::*;

verus! {

/// A `bitvec` bit-vector of `u8` elements in `Lsb0` order.
#[verifier::external_body]
pub struct BitStack {
    v: BitVec<u8, Lsb0>,
}

/// The bits that a [`BitStack`] holds, index 0 first.
pub uninterp spec fn bits_of(s: BitStack) -> Seq<bool>;

/// The largest number of bits that a bit-vector can hold.
pub const MAX_BITS: usize = usize::MAX / 8;

/// Bit `j` (`j < 8`) of the byte `b`, bit 0 being the least significant.
pub open spec fn bit_of(b: u8, j: int) -> bool {
    (b as int / vstd::arithmetic::power2::pow2(j as nat) as int) % 2 == 1
}

/// The bits of a byte sequence, each byte least significant bit first.
pub open spec fn bits_of_bytes(d: Seq<u8>) -> Seq<bool> {
    Seq::new(8 * d.len(), |k: int| bit_of(d[k / 8], k % 8))
}

/// Relies on `BitVec::new`: the new vector is empty.
#[verifier::external_body]
pub(crate) fn stack_new() -> (r: BitStack)
    ensures
        bits_of(r) == Seq::<bool>::empty(),
{
    BitStack { v: BitVec::new() }
}

/// Relies on `BitVec::len`: the number of bits held.
#[verifier::external_body]
pub(crate) fn stack_len(s: &BitStack) -> (r: usize)
    ensures
        r == bits_of(*s).len(),
{
    s.v.len()
}

/// Relies on indexing a `BitSlice` with a `usize`: the bit at index `i`.
#[verifier::external_body]
pub(crate) fn stack_get(s: &BitStack, i: usize) -> (r: bool)
    requires
        i < bits_of(*s).len(),
    ensures
        r == bits_of(*s)[i as int],
{
    s.v[i]
}

/// Relies on `BitVec::pop`: removes and returns the last bit, if any.
#[verifier::external_body]
pub(crate) fn stack_pop(s: &mut BitStack) -> (r: Option<bool>)
    ensures
        bits_of(*old(s)).len() == 0 ==> r is None && bits_of(*final(s)) == bits_of(*old(s)),
        bits_of(*old(s)).len() > 0 ==> r == Some(bits_of(*old(s)).last())
            && bits_of(*final(s)) == bits_of(*old(s)).drop_last(),
{
    s.v.pop()
}

/// Relies on `BitVec::from_vec`: every bit of the bytes, in `Lsb0` order
/// (bit `j` of byte `i` at index `8 * i + j`).
#[verifier::external_body]
pub(crate) fn stack_from_bytes(d: Vec<u8>) -> (r: BitStack)
    requires
        d@.len() * 8 <= MAX_BITS,
    ensures
        bits_of(r) == bits_of_bytes(d@),
{
    BitStack { v: BitVec::from_vec(d) }
}

/// Relies on `BitSlice::reverse`: the bits in reverse order.
#[verifier::external_body]
pub(crate) fn stack_reverse(s: &mut BitStack)
    ensures
        bits_of(*final(s)) == bits_of(*old(s)).reverse(),
{
    s.v.reverse()
}

/// Relies on `BitVec::append`: moves the bits of `other` behind those of
/// `s`, leaving `other` empty.
#[verifier::external_body]
pub(crate) fn stack_append(s: &mut BitStack, other: &mut BitStack)
    requires
        bits_of(*old(s)).len() + bits_of(*old(other)).len() <= MAX_BITS,
    ensures
        bits_of(*final(s)) == bits_of(*old(s)) + bits_of(*old(other)),
        bits_of(*final(other)) == Seq::<bool>::empty(),
{
    s.v.append(&mut other.v)
}

} // verus!
