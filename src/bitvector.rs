//! Bit vectors, most significant bit first, stored by the `bitvec` crate.
//!
//! A `BitVector` holds a `BitVec<u8, Msb0>`; the proofs see it as the sequence of
//! bits that it holds, first bit first.
use vstd::prelude::*;
use bitvec::order::Msb0;
use bitvec::vec::BitVec;

verus! {

/// An ordered sequence of bits.
#[verifier::external_body]
#[derive(Debug, PartialEq, Eq)]
pub struct BitVector {
    inner: BitVec<u8, Msb0>,
}

/// The bits that a bit vector holds, in order.
pub uninterp spec fn bits_of(v: BitVector) -> Seq<bool>;

/// The largest number of bits that a bit vector can hold (`BitSlice::MAX_BITS`).
pub open spec fn max_bits() -> nat {
    (usize::MAX / 8) as nat
}

impl View for BitVector {
    type V = Seq<bool>;

    open spec fn view(&self) -> Seq<bool> {
        bits_of(*self)
    }
}

/// Relies on `BitVec::new`: the new vector is empty.
#[verifier::external_body]
fn bv_new() -> (r: BitVector)
    ensures
        bits_of(r) == Seq::<bool>::empty(),
{
    BitVector { inner: BitVec::new() }
}

/// Relies on `BitVec::len`: the number of bits held, which never exceeds `BitSlice::MAX_BITS`.
#[verifier::external_body]
fn bv_len(v: &BitVector) -> (r: usize)
    ensures
        r == bits_of(*v).len(),
        r <= max_bits(),
{
    v.inner.len()
}

/// Relies on indexing a `BitVec` by position: the bit at position `i`.
#[verifier::external_body]
fn bv_get(v: &BitVector, i: usize) -> (r: bool)
    requires
        i < bits_of(*v).len(),
    ensures
        r == bits_of(*v)[i as int],
{
    v.inner[i]
}

/// Relies on `BitVec::push`: appends one bit; it panics past `BitSlice::MAX_BITS`.
#[verifier::external_body]
fn bv_push(v: &mut BitVector, b: bool)
    requires
        bits_of(*old(v)).len() + 1 <= max_bits(),
    ensures
        bits_of(*final(v)) == bits_of(*old(v)).push(b),
{
    v.inner.push(b)
}

/// Relies on `BitVec::extend_from_bitslice`: appends the bits of `other`.
#[verifier::external_body]
fn bv_extend(v: &mut BitVector, other: &BitVector)
    requires
        bits_of(*old(v)).len() + bits_of(*other).len() <= max_bits(),
    ensures
        bits_of(*final(v)) == bits_of(*old(v)) + bits_of(*other),
{
    v.inner.extend_from_bitslice(&other.inner)
}

/// Relies on `BitVec::truncate`: keeps the first `n` bits, or all where there are fewer.
#[verifier::external_body]
fn bv_truncate(v: &mut BitVector, n: usize)
    ensures
        bits_of(*final(v)) == (if n < bits_of(*old(v)).len() {
            bits_of(*old(v)).take(n as int)
        } else {
            bits_of(*old(v))
        }),
{
    v.inner.truncate(n)
}

/// Relies on `BitVec::resize`: cuts to `n` bits, or appends copies of `b` up to `n` bits.
#[verifier::external_body]
fn bv_resize(v: &mut BitVector, n: usize, b: bool)
    requires
        n <= max_bits(),
    ensures
        bits_of(*final(v)) == (if n <= bits_of(*old(v)).len() {
            bits_of(*old(v)).take(n as int)
        } else {
            bits_of(*old(v)) + Seq::new((n - bits_of(*old(v)).len()) as nat, |k: int| b)
        }),
{
    v.inner.resize(n, b)
}

impl BitVector {
    /// An empty bit vector.
    pub fn new() -> (r: BitVector)
        ensures
            r@ == Seq::<bool>::empty(),
    {
        bv_new()
    }

    /// The number of bits held.
    pub fn len(&self) -> (r: usize)
        ensures
            r == self@.len(),
            r <= max_bits(),
    {
        bv_len(self)
    }

    /// Whether no bit is held.
    pub fn is_empty(&self) -> (r: bool)
        ensures
            r == (self@.len() == 0),
    {
        bv_len(self) == 0
    }

    /// The bit at position `i`.
    pub fn get(&self, i: usize) -> (r: bool)
        requires
            i < self@.len(),
        ensures
            r == self@[i as int],
    {
        bv_get(self, i)
    }

    /// Appends one bit.
    pub fn push(&mut self, b: bool)
        requires
            old(self)@.len() + 1 <= max_bits(),
        ensures
            final(self)@ == old(self)@.push(b),
    {
        bv_push(self, b)
    }

    /// Appends the bits of `other`.
    pub fn extend_from(&mut self, other: &BitVector)
        requires
            old(self)@.len() + other@.len() <= max_bits(),
        ensures
            final(self)@ == old(self)@ + other@,
    {
        bv_extend(self, other)
    }

    /// Keeps the first `n` bits, or all of them where there are fewer.
    pub fn truncate(&mut self, n: usize)
        ensures
            final(self)@ == (if n < old(self)@.len() {
                old(self)@.take(n as int)
            } else {
                old(self)@
            }),
    {
        bv_truncate(self, n)
    }

    /// Cuts the vector to `n` bits, or pads it with copies of `b` up to `n` bits.
    pub fn resize(&mut self, n: usize, b: bool)
        requires
            n <= max_bits(),
        ensures
            final(self)@ == (if n <= old(self)@.len() {
                old(self)@.take(n as int)
            } else {
                old(self)@ + Seq::new((n - old(self)@.len()) as nat, |k: int| b)
            }),
    {
        bv_resize(self, n, b)
    }

    /// A bit vector holding `bits`, in order.
    pub fn from_bools(bits: &[bool]) -> (r: BitVector)
        requires
            bits@.len() <= max_bits(),
        ensures
            r@ == bits@,
    {
        let mut r = bv_new();
        let mut i: usize = 0;
        while i < bits.len()
            invariant
                i <= bits@.len(),
                bits@.len() <= max_bits(),
                r@ == bits@.take(i as int),
            decreases bits@.len() - i,
        {
            bv_push(&mut r, bits[i]);
            i += 1;
            assert(bits@.take(i as int) == bits@.take(i - 1).push(bits@[i - 1]));
        }
        assert(bits@.take(bits@.len() as int) == bits@);
        r
    }

    /// The bits held, as booleans in order.
    pub fn to_bools(&self) -> (r: Vec<bool>)
        ensures
            r@ == self@,
    {
        let n = bv_len(self);
        let mut r: Vec<bool> = Vec::new();
        let mut i: usize = 0;
        while i < n
            invariant
                i <= n,
                n == self@.len(),
                r@ == self@.take(i as int),
            decreases n - i,
        {
            r.push(bv_get(self, i));
            i += 1;
            assert(self@.take(i as int) == self@.take(i - 1).push(self@[i - 1]));
        }
        assert(self@.take(n as int) == self@);
        r
    }
}

} // verus!
