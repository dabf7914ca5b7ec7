//! A pointer to a single bit of an allocation bitmap: an entry index and a bit offset.
use vstd::prelude::*;

verus! {

/// The largest entry index (exclusive) a `BitPtr` can hold.
pub const BITPTR_MAX_ENTRY: u64 = 0x00FF_FFFF_FFFF_FFFFu64;

/// A pointer to a specific bit in a bitmap: the entry index in the upper 56 bits and the
/// bit offset inside the entry in the low 8 bits.
#[derive(Clone, Copy, PartialEq, Eq, Debug)]
pub struct BitPtr(u64);

impl BitPtr {
    #[verifier::type_invariant]
    spec fn inv(self) -> bool {
        self.0 & 0xFFu64 < 64
    }

    /// The raw encoding of the pointer.
    pub closed spec fn view(self) -> u64 {
        self.0
    }

    /// The index of the bitmap entry the pointer points into.
    pub open spec fn spec_entry(self) -> u64 {
        self@ >> 8
    }

    /// The offset of the bit inside its entry.
    pub open spec fn spec_offset(self) -> u64 {
        self@ & 0xFFu64
    }

    /// The overall bit index the pointer points to.
    pub open spec fn spec_index(self) -> int {
        self.spec_entry() * 64 + self.spec_offset()
    }

    /// A `BitPtr` to the first bit of the bitmap.
    pub fn zero() -> (r: BitPtr)
        ensures
            r.spec_entry() == 0,
            r.spec_offset() == 0,
    {
        assert((0u64 >> 8) == 0 && 0u64 & 0xFFu64 == 0) by (bit_vector);
        BitPtr(0)
    }

    /// Creates a `BitPtr` to the first bit of the bitmap entry `entry`; the entry index is
    /// shifted into place, so indices of 2^56 and more lose their upper bits.
    pub fn entry(entry: u64) -> (r: BitPtr)
        ensures
            r@ == entry << 8,
            r.spec_offset() == 0,
            entry < BITPTR_MAX_ENTRY ==> r.spec_entry() == entry,
    {
        assert((entry << 8) & 0xFFu64 == 0 && (entry < BITPTR_MAX_ENTRY ==> (entry << 8) >> 8 == entry)) by (bit_vector);
        BitPtr(entry << 8)
    }

    /// Creates a `BitPtr` from an entry index and a bit offset inside the entry.
    pub fn new(entry_index: u64, bit_offset: u8) -> (r: BitPtr)
        requires
            bit_offset < 64,
            entry_index < BITPTR_MAX_ENTRY,
        ensures
            r.spec_entry() == entry_index,
            r.spec_offset() == bit_offset,
    {
        let off = bit_offset as u64;
        assert(off < 64 && entry_index < BITPTR_MAX_ENTRY ==> ((entry_index << 8) | off) >> 8
            == entry_index && ((entry_index << 8) | off) & 0xFFu64 == off) by (bit_vector);
        BitPtr((entry_index << 8) | off)
    }

    /// Creates a `BitPtr` from an entry index and a bit offset that may exceed one entry;
    /// whole entries of the offset are carried into the entry index.
    pub fn new_wrapping(entry_index: u64, bit_offset: u64) -> (r: BitPtr)
        requires
            entry_index + bit_offset / 64 < BITPTR_MAX_ENTRY,
        ensures
            r.spec_entry() == entry_index + bit_offset / 64,
            r.spec_offset() == bit_offset % 64,
            r.spec_index() == entry_index * 64 + bit_offset,
    {
        let entries_from_bits = bit_offset / 64;
        let off = (bit_offset % 64) as u8;
        let entry_index = entry_index + entries_from_bits;
        Self::new(entry_index, off)
    }

    /// Returns the index of the bitmap entry this `BitPtr` points into.
    pub fn entry_index(&self) -> (r: u64)
        ensures
            r == self.spec_entry(),
            r <= BITPTR_MAX_ENTRY,
    {
        let x = self.0;
        assert(x >> 8 <= 0x00FF_FFFF_FFFF_FFFFu64) by (bit_vector);
        x >> 8
    }

    /// Returns the offset of the bit inside its bitmap entry.
    pub fn bit_offset(&self) -> (r: u8)
        ensures
            r == self.spec_offset(),
            r < 64,
    {
        proof {
            use_type_invariant(self);
        }
        (self.0 & 0xFF) as u8
    }

    /// Returns the overall bit index, `entry_index * 64 + bit_offset`.
    pub fn bit_index(&self) -> (r: u64)
        ensures
            r == self.spec_index(),
            r < BITPTR_MAX_ENTRY * 64 + 64,
    {
        let e = self.entry_index();
        let o = self.bit_offset();
        e * 64 + o as u64
    }

    /// Returns the address of the memory the bit stands for, given the base address of the
    /// managed range and the number of bytes each bit represents.
    pub fn as_ptr(&self, base: u64, bit_size: u64) -> (r: u64)
        requires
            self.spec_index() * bit_size + base <= u64::MAX,
        ensures
            r == base + self.spec_index() * bit_size,
    {
        let idx = self.bit_index();
        proof {
            vstd::arithmetic::mul::lemma_mul_nonnegative(idx as int, bit_size as int);
        }
        let byte_offset = idx * bit_size;
        base + byte_offset
    }

    /// Returns the address of the memory the bit stands for, for mutable access; the
    /// computation is that of `as_ptr`.
    pub fn as_mut_ptr(&self, base: u64, bit_size: u64) -> (r: u64)
        requires
            self.spec_index() * bit_size + base <= u64::MAX,
        ensures
            r == base + self.spec_index() * bit_size,
    {
        self.as_ptr(base, bit_size)
    }

    /// Checks whether `n_bits` bits from this bit's offset run past the end of its entry.
    pub fn will_overflow(&self, n_bits: u64) -> (r: bool)
        requires
            self.spec_offset() + n_bits <= u64::MAX,
        ensures
            r == (self.spec_offset() + n_bits > 64),
    {
        let bit_index = self.bit_offset() as u64 + n_bits;
        bit_index > 64
    }
}

} // verus!
