//! Mapping flags, memory-management errors, memory mappings, layouts, and the bookkeeping of
//! how the address space is reached (direct map, recursive slots).
use vstd::prelude::*;
use vstd::string::StringExecFns;
use crate::addr::{Address, PhysAddr, VirtAddr};
use crate::arch::{valid_phys, valid_virt};
use crate::index::PageTableIndex;
use crate::primitives::AnyPage;

verus! {

/// Flags of a mapping, as the memory manager's users give them: a set of bits.
#[derive(Clone, Copy, PartialEq, Eq, Debug)]
pub struct MapFlags(u64);

/// The bits that `MapFlags` knows: writable, user accessible, executable, cache disabled.
pub const MAP_FLAGS_ALL: u64 = 0x1Eu64;

impl MapFlags {
    /// The bits.
    pub closed spec fn view(&self) -> u64 {
        self.0
    }

    /// No flag.
    pub fn empty() -> (r: MapFlags)
        ensures
            r@ == 0,
    {
        MapFlags(0)
    }

    /// Writable memory.
    pub fn writable() -> (r: MapFlags)
        ensures
            r@ == 1u64 << 1u64,
    {
        MapFlags(1u64 << 1u64)
    }

    /// Memory accessible from user space.
    pub fn user_accessible() -> (r: MapFlags)
        ensures
            r@ == 1u64 << 2u64,
    {
        MapFlags(1u64 << 2u64)
    }

    /// Executable memory.
    pub fn executable() -> (r: MapFlags)
        ensures
            r@ == 1u64 << 3u64,
    {
        MapFlags(1u64 << 3u64)
    }

    /// Memory with caching disabled.
    pub fn cache_disable() -> (r: MapFlags)
        ensures
            r@ == 1u64 << 4u64,
    {
        MapFlags(1u64 << 4u64)
    }

    /// The flags of the known bits of `bits`.
    pub fn from_bits_truncate(bits: u64) -> (r: MapFlags)
        ensures
            r@ == bits & MAP_FLAGS_ALL,
    {
        MapFlags(bits & MAP_FLAGS_ALL)
    }

    /// The bits.
    pub fn bits(&self) -> (r: u64)
        ensures
            r == self@,
    {
        self.0
    }

    /// Whether every flag of `other` is set.
    pub fn contains(&self, other: MapFlags) -> (r: bool)
        ensures
            r == (self@ & other@ == other@),
    {
        self.0 & other.0 == other.0
    }

    /// The flags of either.
    pub fn union(self, other: MapFlags) -> (r: MapFlags)
        ensures
            r@ == self@ | other@,
    {
        MapFlags(self.0 | other.0)
    }

    /// A short description: `W` or `R`, `US` or `KS`, `X` or `NX`, `NC` or `C`.
    pub fn describe(&self) -> (r: String)
        ensures
            r@ == map_flags_text(*self),
    {
        let mut s = String::from_str(if self.contains(MapFlags::writable()) {
            "W"
        } else {
            "R"
        });
        s.append(if self.contains(MapFlags::user_accessible()) {
            " US"
        } else {
            " KS"
        });
        s.append(if self.contains(MapFlags::executable()) {
            " X"
        } else {
            " NX"
        });
        s.append(if self.contains(MapFlags::cache_disable()) {
            " NC"
        } else {
            " C"
        });
        s
    }
}

/// Whether the flags `f` hold bit `b`.
pub open spec fn has_flag(f: u64, b: u64) -> bool {
    f & (1u64 << b) == (1u64 << b)
}

/// The description of the flags `f`.
pub open spec fn map_flags_text(f: MapFlags) -> Seq<char> {
    (if has_flag(f@, 1) {
        "W"@
    } else {
        "R"@
    }) + (if has_flag(f@, 2) {
        " US"@
    } else {
        " KS"@
    }) + (if has_flag(f@, 3) {
        " X"@
    } else {
        " NX"@
    }) + (if has_flag(f@, 4) {
        " NC"@
    } else {
        " C"@
    })
}

/// The flags of a page-table entry of the architecture: a set of bits.
#[derive(Clone, Copy, PartialEq, Eq, Debug)]
pub struct PageTableFlags(u64);

/// The bits that `PageTableFlags` knows.
pub const PAGE_TABLE_FLAGS_ALL: u64 = 0x8000_0000_0000_01FFu64;

impl PageTableFlags {
    /// The bits.
    pub closed spec fn view(&self) -> u64 {
        self.0
    }

    /// The entry is present.
    pub const PRESENT: u64 = 1u64;

    /// The memory is writable.
    pub const WRITABLE: u64 = 2u64;

    /// The memory is accessible from user space.
    pub const USER_ACCESSIBLE: u64 = 4u64;

    /// Write-through caching.
    pub const WRITE_THROUGH: u64 = 8u64;

    /// Caching is disabled.
    pub const NO_CACHE: u64 = 0x10u64;

    /// The memory was accessed.
    pub const ACCESSED: u64 = 0x20u64;

    /// The memory was written.
    pub const DIRTY: u64 = 0x40u64;

    /// The entry maps a huge page.
    pub const HUGE_PAGE: u64 = 0x80u64;

    /// The mapping is global.
    pub const GLOBAL: u64 = 0x100u64;

    /// Code may not be executed from the memory.
    pub const NO_EXECUTE: u64 = 0x8000_0000_0000_0000u64;

    /// No flag.
    pub fn empty() -> (r: PageTableFlags)
        ensures
            r@ == 0,
    {
        PageTableFlags(0)
    }

    /// The flags of the known bits of `bits`.
    pub fn from_bits_truncate(bits: u64) -> (r: PageTableFlags)
        ensures
            r@ == bits & PAGE_TABLE_FLAGS_ALL,
    {
        PageTableFlags(bits & PAGE_TABLE_FLAGS_ALL)
    }

    /// The bits.
    pub fn bits(&self) -> (r: u64)
        ensures
            r == self@,
    {
        self.0
    }

    /// Whether every bit of `bits` is set.
    pub fn contains(&self, bits: u64) -> (r: bool)
        ensures
            r == (self@ & bits == bits),
    {
        self.0 & bits == bits
    }
}

/// The page-table flags for the mapping flags `m`: present, and writable, user accessible,
/// not executable and uncached as `m` says.
pub open spec fn table_flags_of(m: u64) -> u64 {
    PageTableFlags::PRESENT | (if has_flag(m, 1) {
        PageTableFlags::WRITABLE
    } else {
        0
    }) | (if has_flag(m, 2) {
        PageTableFlags::USER_ACCESSIBLE
    } else {
        0
    }) | (if !has_flag(m, 3) {
        PageTableFlags::NO_EXECUTE
    } else {
        0
    }) | (if has_flag(m, 4) {
        PageTableFlags::NO_CACHE
    } else {
        0
    })
}

/// The mapping flags for the page-table flags `p`: writable, user accessible, executable and
/// uncached as `p` says.
pub open spec fn map_flags_of(p: u64) -> u64 {
    (if p & PageTableFlags::WRITABLE == PageTableFlags::WRITABLE {
        2u64
    } else {
        0
    }) | (if p & PageTableFlags::USER_ACCESSIBLE == PageTableFlags::USER_ACCESSIBLE {
        4u64
    } else {
        0
    }) | (if p & PageTableFlags::NO_EXECUTE != PageTableFlags::NO_EXECUTE {
        8u64
    } else {
        0
    }) | (if p & PageTableFlags::NO_CACHE == PageTableFlags::NO_CACHE {
        0x10u64
    } else {
        0
    })
}

impl From<MapFlags> for PageTableFlags {
    fn from(value: MapFlags) -> (r: PageTableFlags)
        ensures
            r@ == table_flags_of(value@),
    {
        let writable: u64 = if value.contains(MapFlags::writable()) {
            PageTableFlags::WRITABLE
        } else {
            0
        };
        let user: u64 = if value.contains(MapFlags::user_accessible()) {
            PageTableFlags::USER_ACCESSIBLE
        } else {
            0
        };
        let no_exec: u64 = if !value.contains(MapFlags::executable()) {
            PageTableFlags::NO_EXECUTE
        } else {
            0
        };
        let no_cache: u64 = if value.contains(MapFlags::cache_disable()) {
            PageTableFlags::NO_CACHE
        } else {
            0
        };
        PageTableFlags(PageTableFlags::PRESENT | writable | user | no_exec | no_cache)
    }
}

impl vstd::std_specs::convert::FromSpecImpl<MapFlags> for PageTableFlags {
    open spec fn obeys_from_spec() -> bool {
        true
    }

    closed spec fn from_spec(v: MapFlags) -> PageTableFlags {
        PageTableFlags(table_flags_of(v@))
    }
}

impl From<PageTableFlags> for MapFlags {
    fn from(value: PageTableFlags) -> (r: MapFlags)
        ensures
            r@ == map_flags_of(value@),
    {
        let writable: u64 = if value.contains(PageTableFlags::WRITABLE) {
            2
        } else {
            0
        };
        let user: u64 = if value.contains(PageTableFlags::USER_ACCESSIBLE) {
            4
        } else {
            0
        };
        let exec: u64 = if !value.contains(PageTableFlags::NO_EXECUTE) {
            8
        } else {
            0
        };
        let no_cache: u64 = if value.contains(PageTableFlags::NO_CACHE) {
            0x10
        } else {
            0
        };
        MapFlags(writable | user | exec | no_cache)
    }
}

impl vstd::std_specs::convert::FromSpecImpl<PageTableFlags> for MapFlags {
    open spec fn obeys_from_spec() -> bool {
        true
    }

    closed spec fn from_spec(v: PageTableFlags) -> MapFlags {
        MapFlags(map_flags_of(v@))
    }
}

/// Turning mapping flags into page-table flags and back gives the known mapping flags back.
pub proof fn lemma_flags_roundtrip(m: u64)
    ensures
        map_flags_of(table_flags_of(m)) == m & MAP_FLAGS_ALL,
{
    assert(map_flags_of(table_flags_of(m)) == m & MAP_FLAGS_ALL) by (bit_vector);
}

/// Where the memory of a mapping comes from.
#[derive(Clone, Copy, PartialEq, Eq, Debug)]
pub enum MapSource {
    /// The physical memory from the given address on.
    Direct(PhysAddr),
    /// Freshly allocated memory.
    Anon,
}

/// A mapping of `byte_size` bytes from a virtual base to a physical base.
#[derive(Clone, Copy, PartialEq, Eq, Debug)]
pub struct MemoryMapping {
    virt_base: VirtAddr,
    phys_base: PhysAddr,
    byte_size: usize,
}

impl MemoryMapping {
    /// The virtual base, the physical base and the size.
    pub closed spec fn view(&self) -> (u64, u64, usize) {
        (self.virt_base@, self.phys_base@, self.byte_size)
    }

    /// Creates the mapping of `byte_size` bytes from `virt_base` to `phys_base`.
    pub fn new(virt_base: VirtAddr, phys_base: PhysAddr, byte_size: usize) -> (r: MemoryMapping)
        ensures
            r@ == (virt_base@, phys_base@, byte_size),
    {
        MemoryMapping { virt_base, phys_base, byte_size }
    }

    /// The virtual base.
    pub fn virt_base(&self) -> (r: VirtAddr)
        ensures
            r@ == self@.0,
    {
        self.virt_base
    }

    /// The physical base.
    pub fn phys_base(&self) -> (r: PhysAddr)
        ensures
            r@ == self@.1,
    {
        self.phys_base
    }

    /// The size in bytes.
    pub fn byte_size(&self) -> (r: usize)
        ensures
            r == self@.2,
    {
        self.byte_size
    }
}

/// Why a range of addresses is invalid.
#[derive(Clone, Copy, PartialEq, Eq, Debug)]
pub enum InvalidRangeReason {
    /// Its end overflows or is not a valid address.
    Overflow,
    /// An address is not canonical.
    NonCanonical,
    /// An address is not aligned.
    Unaligned,
}

/// An error of the architecture's paging.
#[derive(Clone, Copy, PartialEq, Eq, Debug)]
pub enum ArchError {
    /// A parent entry maps a huge page, so nothing can be mapped below it.
    ParentEntryHugePage,
}

/// An error of the memory manager.
#[derive(Clone, Copy, PartialEq, Eq, Debug)]
pub enum MemError {
    /// The range is already mapped, to the given physical address.
    AlreadyMapped(PhysAddr),
    /// Not enough memory.
    OutOfMemory,
    /// The virtual range is invalid.
    InvalidVirtRange { reason: InvalidRangeReason, begin: VirtAddr, size: u64 },
    /// The physical range is invalid.
    InvalidPhysRange { reason: InvalidRangeReason, begin: PhysAddr, size: u64 },
    /// The scratch space is too small.
    ScratchSpaceTooSmall { provided: u64, required: u64 },
    /// A resource is not initialized yet.
    Uninit(&'static str),
    /// The page is not mapped.
    NotMapped(AnyPage),
    /// An entry points to an invalid frame address.
    InvalidFrameAddress(PhysAddr),
    /// The alignment is not a power of two.
    InvalidAlignment(usize),
    /// The virtual address is not managed.
    UnmanagedVirtual(VirtAddr),
    /// The physical address is not managed.
    UnmanagedPhysical(PhysAddr),
    /// An error of the architecture.
    ArchError(ArchError),
    /// The operation is not valid here, such as a level-1 entry that claims a huge page.
    InvalidOperation,
    /// Another error.
    Other(&'static str),
}

impl MemError {
    /// Wraps an error of the architecture.
    pub fn from_arch(e: ArchError) -> (r: MemError)
        ensures
            r == MemError::ArchError(e),
    {
        MemError::ArchError(e)
    }
}

/// Checks that the `byte_size` bytes from `virt_base` end at a valid virtual address.
pub fn check_range_virt(virt_base: VirtAddr, byte_size: usize) -> (r: Result<(), MemError>)
    ensures
        r is Ok <==> (virt_base@ + byte_size <= u64::MAX && valid_virt((virt_base@ + byte_size) as u64)),
        r matches Err(e) ==> e == (MemError::InvalidVirtRange {
            reason: InvalidRangeReason::Overflow,
            begin: virt_base,
            size: byte_size as u64,
        }),
{
    match virt_base.checked_add(byte_size as u64) {
        Some(_) => Ok(()),
        None => Err(
            MemError::InvalidVirtRange {
                reason: InvalidRangeReason::Overflow,
                begin: virt_base,
                size: byte_size as u64,
            },
        ),
    }
}

/// Checks that the `byte_size` bytes from `phys_base` end at a valid physical address.
pub fn check_range_phys(phys_base: PhysAddr, byte_size: usize) -> (r: Result<(), MemError>)
    ensures
        r is Ok <==> (phys_base@ + byte_size <= u64::MAX && valid_phys((phys_base@ + byte_size) as u64)),
        r matches Err(e) ==> e == (MemError::InvalidPhysRange {
            reason: InvalidRangeReason::Overflow,
            begin: phys_base,
            size: byte_size as u64,
        }),
{
    match phys_base.checked_add(byte_size as u64) {
        Some(_) => Ok(()),
        None => Err(
            MemError::InvalidPhysRange {
                reason: InvalidRangeReason::Overflow,
                begin: phys_base,
                size: byte_size as u64,
            },
        ),
    }
}

/// The size and alignment of a block of memory.
#[derive(Clone, Copy, PartialEq, Eq, Debug)]
pub struct Layout {
    size: usize,
    align: usize,
}

impl Layout {
    #[verifier::type_invariant]
    spec fn inv(self) -> bool {
        crate::align::is_pow2(self.align as u64) && self.size + self.align - 1 <= isize::MAX
    }

    /// The size.
    pub closed spec fn spec_size(&self) -> usize {
        self.size
    }

    /// The alignment.
    pub closed spec fn spec_align(&self) -> usize {
        self.align
    }

    /// A layout of `size` bytes aligned to `align`, or `None` when `align` is not a power of
    /// two or `size` rounded up to `align` exceeds `isize::MAX`.
    pub fn from_size_align(size: usize, align: usize) -> (r: Option<Layout>)
        ensures
            r is Some <==> (crate::align::is_pow2(align as u64) && size + align - 1 <= isize::MAX),
            r matches Some(l) ==> l.spec_size() == size && l.spec_align() == align,
    {
        let a = match crate::align::Alignment::new(align) {
            Some(a) => a,
            None => {
                return None;
            },
        };
        let a64 = a.as_u64();
        if (size as u128) + (a64 as u128) - 1 > (isize::MAX as u128) {
            return None;
        }
        Some(Layout { size, align })
    }

    /// The size.
    pub fn size(&self) -> (r: usize)
        ensures
            r == self.spec_size(),
    {
        self.size
    }

    /// The alignment.
    pub fn align(&self) -> (r: usize)
        ensures
            r == self.spec_align(),
    {
        self.align
    }

    /// The alignment, which is a power of two.
    pub fn alignment(&self) -> (r: crate::align::Alignment)
        ensures
            r@ == self.spec_align() as u64,
    {
        proof {
            use_type_invariant(self);
        }
        crate::align::Alignment::new(self.align).unwrap()
    }
}

/// The layout of whole small pages that covers `layout`: its size rounded up to a page, and
/// its alignment at least a page. The rounded size must not exceed `isize::MAX`.
pub fn create_page_layout(layout: Layout) -> (r: Layout)
    requires
        crate::align::is_pow2(layout.spec_align() as u64),
        layout.spec_size() + 4095 + (if layout.spec_align() > 4096 { layout.spec_align() } else { 4096 }) <= isize::MAX,
    ensures
        r.spec_size() == crate::align::align_up_spec(layout.spec_size() as int, 4096),
        r.spec_align() == (if layout.spec_align() > 4096 { layout.spec_align() } else { 4096 }),
{
    let s = layout.size();
    let rem = s % 4096;
    let size_pages: usize = if rem == 0 {
        s
    } else {
        s - rem + 4096
    };
    let align_pages: usize = if layout.align() > 4096 {
        layout.align()
    } else {
        4096
    };
    proof {
        if align_pages == 4096 {
            crate::arch::lemma_shift_constants();
            assert(crate::align::is_pow2(4096u64));
        }
    }
    Layout { size: size_pages, align: align_pages }
}

/// The bitmap that the virtual memory manager keeps for a managed range: the pages it covers,
/// and the bytes and 64-bit entries of a bitmap with one bit per page, rounded to a whole entry.
pub fn scratch_space_layout(managed_size: u64) -> (r: Result<(u64, u64, u64), MemError>)
    ensures
        managed_size < 4096 * 16 ==> r == Err::<(u64, u64, u64), MemError>((MemError::ScratchSpaceTooSmall { provided: managed_size, required: 0x10000u64 })),
        managed_size >= 4096 * 16 ==> (r matches Ok((n_pages, n_bytes, n_entries)) && {
            &&& n_pages == (managed_size + 4095) / 4096
            &&& n_bytes == crate::align::align_up_spec((n_pages / 8) as int, 8)
            &&& n_entries == n_bytes / 8
        }),
{
    if managed_size < 4096 * 16 {
        return Err(MemError::ScratchSpaceTooSmall { provided: managed_size, required: 4096 * 16 });
    }
    let n_pages = managed_size / 4096 + if managed_size % 4096 == 0 {
        0
    } else {
        1
    };
    let eighth = n_pages / 8;
    let n_bytes = if eighth % 8 == 0 {
        eighth
    } else {
        eighth - eighth % 8 + 8
    };
    Ok((n_pages, n_bytes, n_bytes / 8))
}

/// How the address space is reached: not yet configured, through a direct map of physical
/// memory at an offset (HHDM), or, on top of that, through a recursive page-table slot.
#[derive(Debug)]
pub struct AddressSpaceState {
    mode: u8,
    hhdm_offset: Option<VirtAddr>,
    recursive_index: Option<PageTableIndex>,
}

impl AddressSpaceState {
    /// The mode: 0 when not configured, 1 with a direct map, 2 with a recursive slot too.
    pub closed spec fn spec_mode(&self) -> u8 {
        self.mode
    }

    /// The direct-map offset, once set.
    pub closed spec fn spec_hhdm(&self) -> Option<VirtAddr> {
        self.hhdm_offset
    }

    /// The recursive slot, once set.
    pub closed spec fn spec_recursive(&self) -> Option<PageTableIndex> {
        self.recursive_index
    }

    /// The offset is set exactly from mode 1 on, and the slot exactly in mode 2.
    pub open spec fn wf(&self) -> bool {
        &&& self.spec_mode() <= 2
        &&& (self.spec_hhdm() is Some <==> self.spec_mode() >= 1)
        &&& (self.spec_recursive() is Some <==> self.spec_mode() == 2)
    }

    /// An address space that is not configured yet.
    pub fn new() -> (r: AddressSpaceState)
        ensures
            r.wf(),
            r.spec_mode() == 0,
    {
        AddressSpaceState { mode: 0, hhdm_offset: None, recursive_index: None }
    }

    /// Configures the direct map at `offset`; the address space must not be configured yet.
    pub fn cfg_hhdm(&mut self, offset: VirtAddr)
        requires
            old(self).wf(),
            old(self).spec_mode() == 0,
        ensures
            final(self).wf(),
            final(self).spec_mode() == 1,
            final(self).spec_hhdm() == Some(offset),
    {
        self.mode = 1;
        self.hhdm_offset = Some(offset);
    }

    /// Sets the recursive slot at `index`; the direct map must be configured, and the slot
    /// not set yet.
    pub fn set_recursive(&mut self, index: PageTableIndex)
        requires
            old(self).wf(),
            old(self).spec_mode() == 1,
        ensures
            final(self).wf(),
            final(self).spec_mode() == 2,
            final(self).spec_recursive() == Some(index),
            final(self).spec_hhdm() == old(self).spec_hhdm(),
    {
        self.mode = 2;
        self.recursive_index = Some(index);
    }

    /// Whether the address space is reached through a direct map only.
    pub fn is_hhdm(&self) -> (r: bool)
        ensures
            r == (self.spec_mode() == 1),
    {
        self.mode == 1
    }

    /// Whether the address space is reached through a recursive slot.
    pub fn is_recursive(&self) -> (r: bool)
        ensures
            r == (self.spec_mode() == 2),
    {
        self.mode == 2
    }

    /// The direct-map offset, once set.
    pub fn hhdm_offset(&self) -> (r: Option<VirtAddr>)
        ensures
            r == self.spec_hhdm(),
    {
        self.hhdm_offset
    }

    /// The recursive slot, once set.
    pub fn recursive_index(&self) -> (r: Option<PageTableIndex>)
        ensures
            r == self.spec_recursive(),
    {
        self.recursive_index
    }
}

/// Hands out the level-4 slots `base .. base + n_entries` (at most 16) for temporary recursive
/// mappings, one bit of `indices` per slot.
#[derive(Debug)]
pub struct RecursiveEntryManager {
    base: PageTableIndex,
    indices: u16,
    n_entries: u8,
}

/// Whether bit `i` of `x` is set.
pub open spec fn bit16(x: u16, i: u16) -> bool {
    (x >> i) & 1u16 == 1u16
}

impl RecursiveEntryManager {
    /// The first slot.
    pub closed spec fn spec_base(&self) -> u16 {
        self.base@
    }

    /// The reserved slots, one bit per slot from the first.
    pub closed spec fn spec_indices(&self) -> u16 {
        self.indices
    }

    /// The number of slots.
    pub closed spec fn spec_n_entries(&self) -> u8 {
        self.n_entries
    }

    /// There are at most 16 slots and they all are table indices; no slot past the last is
    /// reserved.
    pub open spec fn wf(&self) -> bool {
        &&& self.spec_n_entries() <= 16
        &&& self.spec_base() + self.spec_n_entries() <= 512
        &&& forall|i: u16| self.spec_n_entries() <= i < 16 ==> !#[trigger] bit16(self.spec_indices(), i)
    }

    /// A manager of the `n_entries` slots from `base`, none of them reserved.
    pub fn new(base: PageTableIndex, n_entries: u8) -> (r: RecursiveEntryManager)
        requires
            n_entries <= 16,
            base@ + n_entries <= 512,
        ensures
            r.wf(),
            r.spec_base() == base@,
            r.spec_indices() == 0,
            r.spec_n_entries() == n_entries,
    {
        assert(forall|i: u16| i < 16 ==> !#[trigger] bit16(0u16, i)) by (bit_vector);
        RecursiveEntryManager { base, indices: 0, n_entries }
    }

    /// Whether slot `idx` (counted from the first) is reserved.
    fn read_idx(&self, idx: u8) -> (r: bool)
        requires
            self.wf(),
            idx < self.spec_n_entries(),
        ensures
            r == bit16(self.spec_indices(), idx as u16),
    {
        let x = self.indices;
        let j = idx as u16;
        assert(j < 16 ==> ((x & (1u16 << j)) != 0 <==> bit16(x, j))) by (bit_vector);
        (x & (1u16 << j)) != 0
    }

    /// Marks slot `idx` (counted from the first) reserved or free.
    fn set_idx(&mut self, idx: u8, value: bool)
        requires
            old(self).wf(),
            idx < old(self).spec_n_entries(),
        ensures
            final(self).wf(),
            final(self).spec_base() == old(self).spec_base(),
            final(self).spec_n_entries() == old(self).spec_n_entries(),
            forall|i: u16| i < 16 ==> #[trigger] bit16(final(self).spec_indices(), i) == (if i == idx {
                value
            } else {
                bit16(old(self).spec_indices(), i)
            }),
    {
        let x = self.indices;
        let j = idx as u16;
        if value {
            self.indices = x | (1u16 << j);
            assert(forall|i: u16| i < 16 ==> #[trigger] bit16(x | (1u16 << j), i) == (if i == j {
                true
            } else {
                bit16(x, i)
            })) by (bit_vector)
                requires
                    j < 16,
            ;
        } else {
            self.indices = x & !(1u16 << j);
            assert(forall|i: u16| i < 16 ==> #[trigger] bit16(x & !(1u16 << j), i) == (if i == j {
                false
            } else {
                bit16(x, i)
            })) by (bit_vector)
                requires
                    j < 16,
            ;
        }
        assert forall|i: u16| self.spec_n_entries() <= i < 16 implies !#[trigger] bit16(self.spec_indices(), i) by {
            assert(!bit16(old(self).spec_indices(), i));
        }
    }

    /// Reserves the first free slot and returns it, or `None` when the slots before the
    /// first free one are all the slots.
    pub fn reserve(&mut self) -> (r: Option<PageTableIndex>)
        requires
            old(self).wf(),
        ensures
            final(self).wf(),
            final(self).spec_base() == old(self).spec_base(),
            final(self).spec_n_entries() == old(self).spec_n_entries(),
            ({
                let n = old(self).spec_n_entries() as u16;
                let x = old(self).spec_indices();
                if forall|i: u16| i < n ==> #[trigger] bit16(x, i) {
                    r is None && final(self).spec_indices() == x
                } else {
                    &&& r matches Some(idx)
                    &&& idx@ >= old(self).spec_base()
                    &&& {
                        let k = (idx@ - old(self).spec_base()) as u16;
                        &&& k < n
                        &&& !bit16(x, k)
                        &&& forall|i: u16| i < k ==> #[trigger] bit16(x, i)
                        &&& forall|i: u16| i < 16 ==> #[trigger] bit16(final(self).spec_indices(), i) == (i == k || bit16(x, i))
                    }
                }
            }),
    {
        let x = self.indices;
        let n = self.n_entries;
        let mut idx: u8 = 0;
        while idx < n && self.read_idx(idx)
            invariant
                idx <= n,
                n == self.spec_n_entries(),
                x == self.spec_indices(),
                self.wf(),
                *self == *old(self),
                forall|i: u16| i < idx ==> #[trigger] bit16(x, i),
            decreases n - idx,
        {
            idx = idx + 1;
        }
        if idx >= n {
            return None;
        }
        self.set_idx(idx, true);
        let base = self.base.value();
        Some(PageTableIndex::new(base + idx as u16))
    }

    /// Frees the reserved slot `idx`, which must be one of the slots.
    pub fn release(&mut self, idx: PageTableIndex)
        requires
            old(self).wf(),
            old(self).spec_base() <= idx@ < old(self).spec_base() + old(self).spec_n_entries(),
        ensures
            final(self).wf(),
            final(self).spec_base() == old(self).spec_base(),
            final(self).spec_n_entries() == old(self).spec_n_entries(),
            forall|i: u16| i < 16 ==> #[trigger] bit16(final(self).spec_indices(), i) == (i != idx@
                - old(self).spec_base() && bit16(old(self).spec_indices(), i)),
    {
        let k = idx.value() - self.base.value();
        self.set_idx(k as u8, false);
    }
}

/// An allocator of whole pages that needs no heap, for use before the heap exists; it maps
/// its pages with the given flags.
#[derive(Clone, Copy, PartialEq, Eq, Debug)]
pub struct HeaplessAllocator(MapFlags);

impl HeaplessAllocator {
    /// The flags the allocator maps its pages with.
    pub closed spec fn view(&self) -> MapFlags {
        self.0
    }

    /// An allocator that maps its pages with `flags`.
    pub fn new(flags: MapFlags) -> (r: HeaplessAllocator)
        ensures
            r@ == flags,
    {
        HeaplessAllocator(flags)
    }

    /// The flags the allocator maps its pages with.
    pub fn flags(&self) -> (r: MapFlags)
        ensures
            r == self@,
    {
        self.0
    }

    /// Whether growing a block from `old_layout` to `new_layout` can keep it where it is: the
    /// whole pages of the new layout are no more than those of the old one. Both layouts must
    /// round up to whole pages within `isize::MAX`.
    pub fn grows_in_place(&self, old_layout: Layout, new_layout: Layout) -> (r: bool)
        requires
            old_layout.spec_size() + 4095 + (if old_layout.spec_align() > 4096 { old_layout.spec_align() } else { 4096 }) <= isize::MAX,
            new_layout.spec_size() + 4095 + (if new_layout.spec_align() > 4096 { new_layout.spec_align() } else { 4096 }) <= isize::MAX,
        ensures
            r == (crate::align::align_up_spec(new_layout.spec_size() as int, 4096)
                <= crate::align::align_up_spec(old_layout.spec_size() as int, 4096)),
    {
        proof {
            use_type_invariant(&old_layout);
            use_type_invariant(&new_layout);
        }
        let old_pl = create_page_layout(old_layout);
        let new_pl = create_page_layout(new_layout);
        new_pl.size() <= old_pl.size()
    }

    /// Whether shrinking a block from `old_layout` to `new_layout` can keep it where it is: the
    /// whole pages of the new layout are no fewer than those of the old one. Both layouts must
    /// round up to whole pages within `isize::MAX`.
    pub fn shrinks_in_place(&self, old_layout: Layout, new_layout: Layout) -> (r: bool)
        requires
            old_layout.spec_size() + 4095 + (if old_layout.spec_align() > 4096 { old_layout.spec_align() } else { 4096 }) <= isize::MAX,
            new_layout.spec_size() + 4095 + (if new_layout.spec_align() > 4096 { new_layout.spec_align() } else { 4096 }) <= isize::MAX,
        ensures
            r == (crate::align::align_up_spec(new_layout.spec_size() as int, 4096)
                >= crate::align::align_up_spec(old_layout.spec_size() as int, 4096)),
    {
        proof {
            use_type_invariant(&old_layout);
            use_type_invariant(&new_layout);
        }
        let old_pl = create_page_layout(old_layout);
        let new_pl = create_page_layout(new_layout);
        new_pl.size() >= old_pl.size()
    }
}

/// How a new address space gets the memory behind a mapping.
#[derive(Clone, Copy, PartialEq, Eq, Debug)]
pub enum Source {
    /// The same physical address as the virtual one.
    Identity,
    /// The memory the current address space maps at this address.
    CopyFromCurrent(VirtAddr),
    /// Newly allocated memory, zeroed or not.
    Allocate {
        /// Whether the memory is zeroed.
        should_zero: bool,
    },
    /// Like `CopyFromCurrent` for the first `size` bytes; the rest is zeroed.
    CopyFromCurrentLimited {
        /// The address to copy from in the current address space.
        source: VirtAddr,
        /// The number of bytes to copy.
        size: u64,
    },
    /// A given physical address, aligned to a small page.
    PhysAddr(PhysAddr),
}

/// Builds a new address space by mapping ranges of it.
pub trait AddressSpaceBuilder {
    /// Maps `size` bytes at `virt` to memory from `source`, with the flags `map_flags`.
    fn map(&mut self, virt: VirtAddr, source: Source, size: u64, map_flags: MapFlags) -> Result<(), MemError>;
}

} // verus!
