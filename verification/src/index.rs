//! Indices into a page table, and ranges of them.
use vstd::prelude::*;
use crate::arch::ENTRY_COUNT;

verus! {

/// An index into a page table: always below the number of entries of a table (512).
#[derive(Clone, Copy, PartialEq, Eq, PartialOrd, Ord, Hash, Debug)]
pub struct PageTableIndex(u16);

impl PageTableIndex {
    #[verifier::type_invariant]
    spec fn inv(self) -> bool {
        self.0 < 512
    }

    /// The index value.
    pub closed spec fn view(self) -> u16 {
        self.0
    }

    /// Creates the index `value`, or `None` when it is not below the number of entries.
    pub fn try_new(value: u16) -> (r: Option<PageTableIndex>)
        ensures
            r is Some <==> value < 512,
            r matches Some(i) ==> i@ == value,
    {
        if value < ENTRY_COUNT as u16 {
            Some(PageTableIndex(value))
        } else {
            None
        }
    }

    /// Creates the index `value`, which must be below the number of entries.
    pub fn new(value: u16) -> (r: PageTableIndex)
        requires
            value < 512,
        ensures
            r@ == value,
    {
        PageTableIndex(value)
    }

    /// The index value.
    pub fn value(self) -> (r: u16)
        ensures
            r == self@,
            r < 512,
    {
        proof {
            use_type_invariant(&self);
        }
        self.0
    }

    /// The index value as a `u64`.
    pub fn as_u64(self) -> (r: u64)
        ensures
            r == self@,
            r < 512,
    {
        self.value() as u64
    }

    /// The indices from `range.start` (included) to `range.end` (excluded), in order.
    pub fn iter_range(range: core::ops::Range<PageTableIndex>) -> (r: PageIndexIter)
        ensures
            r.spec_current() == range.start@,
            r.spec_end() == range.end@,
    {
        PageIndexIter { current: range.start.value(), end: range.end.value() }
    }

    /// All the indices of a table, in order.
    pub fn iter_all() -> (r: PageIndexIter)
        ensures
            r.spec_current() == 0,
            r.spec_end() == 512,
    {
        PageIndexIter { current: 0, end: ENTRY_COUNT as u16 }
    }
}

/// The indices from a current one up to an end, in order.
pub struct PageIndexIter {
    current: u16,
    end: u16,
}

impl PageIndexIter {
    /// The next index to hand out.
    pub closed spec fn spec_current(&self) -> u16 {
        self.current
    }

    /// The end (excluded).
    pub closed spec fn spec_end(&self) -> u16 {
        self.end
    }

    /// Hands out the next index, or `None` once the end is reached.
    pub fn next(&mut self) -> (r: Option<PageTableIndex>)
        requires
            old(self).spec_end() <= 512,
        ensures
            final(self).spec_end() == old(self).spec_end(),
            old(self).spec_current() < old(self).spec_end() ==> {
                &&& r matches Some(i) && i@ == old(self).spec_current()
                &&& final(self).spec_current() == old(self).spec_current() + 1
            },
            old(self).spec_current() >= old(self).spec_end() ==> r is None && final(self).spec_current()
                == old(self).spec_current(),
    {
        if self.current < self.end {
            let idx = PageTableIndex(self.current);
            self.current = self.current + 1;
            Some(idx)
        } else {
            None
        }
    }
}

} // verus!
