//! Page tables and their entries.
use vstd::prelude::*;
use crate::addr::{Address, PhysAddr};
use crate::arch::PHYSICAL_ADDRESS_MAX;
use crate::mem::{map_flags_of, table_flags_of, MapFlags, PageTableFlags, PAGE_TABLE_FLAGS_ALL};
use crate::primitives::{Frame, FragmentSize};

verus! {

/// The physical address an entry word holds: the word within the physical address width,
/// without the low twelve flag bits.
pub open spec fn entry_addr(e: u64) -> u64 {
    e & PHYSICAL_ADDRESS_MAX & !0xFFFu64
}

/// The entry word has the present bit.
pub open spec fn entry_present(e: u64) -> bool {
    e & PageTableFlags::PRESENT != 0
}

/// The entry word has the huge-page bit.
pub open spec fn entry_huge(e: u64) -> bool {
    e & PageTableFlags::HUGE_PAGE != 0
}

/// An entry of a page table: a frame address and flags, in one word.
#[derive(Clone, Copy, PartialEq, Eq, Debug)]
pub struct PageTableEntry {
    value: u64,
}

impl PageTableEntry {
    /// The word.
    pub closed spec fn view(&self) -> u64 {
        self.value
    }

    /// An entry that maps `phys` with the flags `flags`.
    pub fn new<S: FragmentSize>(phys: Frame<S>, flags: PageTableFlags) -> (r: PageTableEntry)
        ensures
            r@ == phys@ | flags@,
    {
        let addr = phys.start_address().as_u64();
        PageTableEntry { value: addr | flags.bits() }
    }

    /// The flags of the entry that the architecture knows.
    pub fn arch_flags(&self) -> (r: PageTableFlags)
        ensures
            r@ == self@ & PAGE_TABLE_FLAGS_ALL,
    {
        PageTableFlags::from_bits_truncate(self.value)
    }

    /// The mapping flags of the entry.
    pub fn flags(&self) -> (r: MapFlags)
        ensures
            r@ == map_flags_of(self@ & PAGE_TABLE_FLAGS_ALL),
    {
        MapFlags::from(self.arch_flags())
    }

    /// Sets the entry's flags to the page-table flags for `flags`: every flag bit the
    /// architecture knows is replaced, and the address bits stay.
    pub fn set_flags(&mut self, flags: MapFlags)
        ensures
            final(self)@ == (old(self)@ & !PAGE_TABLE_FLAGS_ALL) | table_flags_of(flags@),
    {
        let arch_flags = PageTableFlags::from(flags);
        self.value = (self.value & !PAGE_TABLE_FLAGS_ALL) | arch_flags.bits();
    }

    /// The physical address the entry holds: its word within the physical address width,
    /// without the low twelve flag bits; a multiple of the small page size.
    pub fn addr(&self) -> (r: PhysAddr)
        ensures
            r@ == entry_addr(self@),
            r@ % 4096 == 0,
    {
        let v = self.value;
        assert(v & 0xF_FFFF_FFFF_FFFFu64 & !0xFFFu64 <= 0xF_FFFF_FFFF_FFFFu64 && (v
            & 0xF_FFFF_FFFF_FFFFu64 & !0xFFFu64) % 4096 == 0) by (bit_vector);
        PhysAddr::new(v & PHYSICAL_ADDRESS_MAX & !0xFFFu64)
    }

    /// An entry that maps nothing.
    pub fn empty() -> (r: PageTableEntry)
        ensures
            r@ == 0,
    {
        PageTableEntry { value: 0 }
    }

    /// Whether the entry is present.
    pub fn is_present(&self) -> (r: bool)
        ensures
            r == entry_present(self@),
    {
        self.value & PageTableFlags::PRESENT != 0
    }

    /// Whether the entry maps a huge page (or, at level 1, has the huge bit set).
    pub fn is_huge(&self) -> (r: bool)
        ensures
            r == entry_huge(self@),
    {
        self.value & PageTableFlags::HUGE_PAGE != 0
    }
}

/// A page table: 512 entries.
#[derive(Debug)]
pub struct PageTable {
    entries: [PageTableEntry; 512],
}

impl PageTable {
    /// The entries.
    pub closed spec fn view(&self) -> Seq<PageTableEntry> {
        self.entries@
    }

    /// A table of empty entries.
    pub fn new() -> (r: PageTable)
        ensures
            r@.len() == 512,
            forall|i: int| 0 <= i < 512 ==> (#[trigger] r@[i])@ == 0,
    {
        PageTable { entries: [PageTableEntry { value: 0 }; 512] }
    }

    /// Empties every entry.
    pub fn clear(&mut self)
        ensures
            final(self)@.len() == 512,
            forall|i: int| 0 <= i < 512 ==> (#[trigger] final(self)@[i])@ == 0,
    {
        let mut i: usize = 0;
        while i < 512
            invariant
                i <= 512,
                self@.len() == 512,
                forall|j: int| 0 <= j < i ==> (#[trigger] self@[j])@ == 0,
            decreases 512 - i,
        {
            self.entries.set(i, PageTableEntry { value: 0 });
            i = i + 1;
        }
    }

    /// The entries.
    pub fn entries(&self) -> (r: &[PageTableEntry; 512])
        ensures
            r@ == self@,
    {
        &self.entries
    }
}

} // verus!
