//! Slices of 16-bit values stored as bytes without any alignment guarantee.
pub mod endian;
pub mod utf16;
pub mod utf16_order;

use vstd::prelude::*;
use endian::{Endianness, merge_spec};

verus! {

/// The byte length of the slice was not a multiple of two.
#[derive(Debug, Clone, Copy, PartialEq, Eq, Structural)]
pub struct BadByteLength;

/// The slice was not suitably aligned for direct reinterpretation.
#[derive(Debug, Clone, Copy, PartialEq, Eq, Structural)]
pub struct AlignmentError;

/// The 16-bit units encoded by `bytes` in the given byte order.
pub open spec fn units_of(bytes: Seq<u8>, e: Endianness) -> Seq<u16> {
    Seq::new(bytes.len() / 2, |i: int| merge_spec(e, bytes[2 * i], bytes[2 * i + 1]))
}

proof fn lemma_half(n: int, k: int)
    requires
        0 <= k <= n / 2,
        0 <= n,
    ensures
        2 * k <= n,
        n % 2 == 0 ==> 2 * (n / 2) == n,
{
}

/// A byte slice of even length, read as 16-bit values.
#[derive(Debug, Clone, Copy, PartialEq, Eq)]
pub struct UnalignedU16Slice<'a> {
    bytes: &'a [u8],
}

impl<'a> View for UnalignedU16Slice<'a> {
    type V = Seq<u8>;

    closed spec fn view(&self) -> Seq<u8> {
        self.bytes@
    }
}

impl<'a> UnalignedU16Slice<'a> {
    #[verifier::type_invariant]
    spec fn even_length(self) -> bool {
        self.bytes@.len() % 2 == 0
    }

    /// Wraps `slice`, failing when its length is odd.
    pub fn new(slice: &'a [u8]) -> (r: Result<Self, BadByteLength>)
        ensures
            r is Ok <==> slice@.len() % 2 == 0,
            r matches Ok(s) ==> s@ == slice@,
    {
        if slice.len() % 2 != 0 {
            return Err(BadByteLength);
        }
        Ok(Self { bytes: slice })
    }

    /// The number of 16-bit values.
    pub fn len(&self) -> (r: usize)
        ensures
            r == self@.len() / 2,
    {
        self.bytes.len() / 2
    }

    /// Whether there are no values.
    pub fn is_empty(&self) -> (r: bool)
        ensures
            r == (self@.len() == 0),
    {
        self.bytes.len() == 0
    }

    /// The number of bytes.
    pub fn byte_len(&self) -> (r: usize)
        ensures
            r == self@.len(),
    {
        self.bytes.len()
    }

    /// The underlying bytes.
    pub fn bytes(&self) -> (r: &'a [u8])
        ensures
            r@ == self@,
            r@.len() % 2 == 0,
    {
        proof { use_type_invariant(self); }
        self.bytes
    }

    /// The underlying bytes.
    pub fn raw(&self) -> (r: &'a [u8])
        ensures
            r@ == self@,
    {
        self.bytes
    }

    /// The value at `index` in the given byte order, or `None` past the end.
    pub fn get(&self, index: usize, endianness: Endianness) -> (r: Option<u16>)
        ensures
            index < self@.len() / 2 ==> r == Some(units_of(self@, endianness)[index as int]),
            index >= self@.len() / 2 ==> r is None,
    {
        proof { use_type_invariant(self); }
        if index >= self.bytes.len() / 2 {
            return None;
        }
        let at: usize = index * 2;
        Some(endianness.merge_bytes([self.bytes[at], self.bytes[at + 1]]))
    }

    /// An iterator over the values, each read with its first byte as the low one. The byte
    /// order given is kept with the iterator, but the values are read low byte first whatever
    /// it is: over `01 02 03 04` the iterator yields `0x0201` and `0x0403`.
    pub fn iter(&self, endianness: Endianness) -> (r: UnalignedU16SliceIterator<'a>)
        ensures
            r.remaining_units() == units_of(self@, Endianness::Little),
            r.endianness() == endianness,
    {
        UnalignedU16SliceIterator::new(self, endianness)
    }

    /// The values in `[start, end)`.
    pub fn range(&self, start: usize, end: usize) -> (r: UnalignedU16Slice<'a>)
        requires
            start <= end <= self@.len() / 2,
        ensures
            r@ == self@.subrange(2 * start, 2 * end),
    {
        proof { use_type_invariant(self); lemma_half(self.bytes@.len() as int, end as int); }
        let _n: usize = self.bytes.len();
        UnalignedU16Slice { bytes: &self.bytes[start * 2..end * 2] }
    }

    /// The values from `start` on; `start` must be a valid index.
    pub fn range_from(&self, start: usize) -> (r: UnalignedU16Slice<'a>)
        requires
            start < self@.len() / 2,
        ensures
            r@ == self@.subrange(2 * start, self@.len() as int),
    {
        proof { use_type_invariant(self); }
        let n = self.bytes.len();
        UnalignedU16Slice { bytes: &self.bytes[start * 2..n] }
    }

    /// The values in `[start, end]`.
    pub fn range_inclusive(&self, start: usize, end: usize) -> (r: UnalignedU16Slice<'a>)
        requires
            start <= end + 1,
            end < self@.len() / 2,
        ensures
            r@ == self@.subrange(2 * start, 2 * end + 2),
    {
        proof { use_type_invariant(self); lemma_half(self.bytes@.len() as int, (end + 1) as int); }
        let _n: usize = self.bytes.len();
        UnalignedU16Slice { bytes: &self.bytes[start * 2..end * 2 + 2] }
    }

    /// The values before `end`.
    pub fn range_to(&self, end: usize) -> (r: UnalignedU16Slice<'a>)
        requires
            end <= self@.len() / 2,
        ensures
            r@ == self@.subrange(0, 2 * end),
    {
        proof { use_type_invariant(self); lemma_half(self.bytes@.len() as int, end as int); }
        let _n: usize = self.bytes.len();
        UnalignedU16Slice { bytes: &self.bytes[0..end * 2] }
    }

    /// The values up to and including `end`.
    pub fn range_to_inclusive(&self, end: usize) -> (r: UnalignedU16Slice<'a>)
        requires
            end < self@.len() / 2,
        ensures
            r@ == self@.subrange(0, 2 * end + 2),
    {
        proof { use_type_invariant(self); lemma_half(self.bytes@.len() as int, (end + 1) as int); }
        let _n: usize = self.bytes.len();
        UnalignedU16Slice { bytes: &self.bytes[0..end * 2 + 2] }
    }
}

/// Iterates over the values of an [`UnalignedU16Slice`] from either end.
pub struct UnalignedU16SliceIterator<'a> {
    slice: &'a [u8],
    start: usize,
    end: usize,
    endianness: Endianness,
}

impl<'a> UnalignedU16SliceIterator<'a> {
    #[verifier::type_invariant]
    spec fn bounds(self) -> bool {
        &&& self.start <= self.end <= self.slice@.len()
        &&& self.start % 2 == 0
        &&& self.end % 2 == 0
    }

    /// The values not yet yielded, in order.
    pub closed spec fn remaining_units(self) -> Seq<u16> {
        units_of(self.slice@.subrange(self.start as int, self.end as int), Endianness::Little)
    }

    /// The byte order the iterator was made with.
    pub closed spec fn endianness(self) -> Endianness {
        self.endianness
    }

    /// An iterator over the values of `slice`, each read low byte first; `endianness` is kept
    /// with it.
    pub fn new(slice: &UnalignedU16Slice<'a>, endianness: Endianness) -> (r: Self)
        ensures
            r.remaining_units() == units_of(slice@, Endianness::Little),
            r.endianness() == endianness,
    {
        proof { use_type_invariant(slice); }
        let bytes = slice.bytes();
        assert(bytes@.subrange(0, bytes@.len() as int) =~= bytes@);
        UnalignedU16SliceIterator { slice: bytes, start: 0, end: bytes.len(), endianness }
    }

    /// The number of values not yet yielded.
    pub fn remaining(&self) -> (r: usize)
        ensures
            r == self.remaining_units().len(),
    {
        proof { use_type_invariant(self); }
        (self.end - self.start) / 2
    }

    /// The number of values not yet yielded.
    pub fn len(&self) -> (r: usize)
        ensures
            r == self.remaining_units().len(),
    {
        self.remaining()
    }

    /// Yields the first remaining value.
    pub fn next(&mut self) -> (r: Option<u16>)
        ensures
            old(self).remaining_units().len() == 0 ==> r is None && final(self).remaining_units() == old(self).remaining_units(),
            old(self).remaining_units().len() > 0 ==> r == Some(old(self).remaining_units()[0])
                && final(self).remaining_units() == old(self).remaining_units().drop_first(),
    {
        proof { use_type_invariant(&*self); }
        if self.start == self.end {
            return None;
        }
        let v = Endianness::Little.merge_bytes([self.slice[self.start], self.slice[self.start + 1]]);
        let ghost before = self.slice@.subrange(self.start as int, self.end as int);
        self.start = self.start + 2;
        let ghost after = self.slice@.subrange(self.start as int, self.end as int);
        assert(units_of(after, Endianness::Little) =~= units_of(before, Endianness::Little).drop_first());
        Some(v)
    }

    /// Yields the last remaining value.
    pub fn next_back(&mut self) -> (r: Option<u16>)
        ensures
            old(self).remaining_units().len() == 0 ==> r is None && final(self).remaining_units() == old(self).remaining_units(),
            old(self).remaining_units().len() > 0 ==> r == Some(old(self).remaining_units().last())
                && final(self).remaining_units() == old(self).remaining_units().drop_last(),
    {
        proof { use_type_invariant(&*self); }
        if self.start == self.end {
            return None;
        }
        let v = Endianness::Little.merge_bytes([self.slice[self.end - 2], self.slice[self.end - 1]]);
        let ghost before = self.slice@.subrange(self.start as int, self.end as int);
        self.end = self.end - 2;
        let ghost after = self.slice@.subrange(self.start as int, self.end as int);
        assert(units_of(after, Endianness::Little) =~= units_of(before, Endianness::Little).drop_last());
        Some(v)
    }
}

} // verus!
