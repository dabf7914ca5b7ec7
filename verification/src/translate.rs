//! The decisions of address translation: what the page-table entries on the way to an address
//! say it maps to, and which parent tables an unmapping leaves empty enough to free.
use vstd::prelude::*;
use crate::accessor::{build_spec, build_vaddress, dissolve_address, index_of};
use crate::addr::VirtAddr;
use crate::arch::{canonical_virt, valid_virt};
use crate::index::PageTableIndex;
use crate::mem::{map_flags_of, MapFlags, MemError, PAGE_TABLE_FLAGS_ALL};
use crate::primitives::{AnyFragment, DirectMapping, Frame, Large, Medium, Page, Small, LARGE_SIZE, MEDIUM_SIZE, SMALL_SIZE};
use crate::table::{entry_addr, entry_huge, entry_present, PageTableEntry};

verus! {

/// The result of translating a virtual address.
#[derive(Clone, Copy, PartialEq, Eq, Debug)]
pub enum TranslateResult {
    /// The address is mapped: the page that holds it, the frame behind that page, and the
    /// flags of the mapping.
    Success(DirectMapping, MapFlags),
    /// The address is not mapped.
    NotMapped,
    /// The page tables could not be read or hold something invalid.
    Error(MemError),
}

impl From<MemError> for TranslateResult {
    fn from(err: MemError) -> (r: TranslateResult)
        ensures
            r == TranslateResult::Error(err),
    {
        TranslateResult::Error(err)
    }
}

impl vstd::std_specs::convert::FromSpecImpl<MemError> for TranslateResult {
    open spec fn obeys_from_spec() -> bool {
        true
    }

    open spec fn from_spec(err: MemError) -> TranslateResult {
        TranslateResult::Error(err)
    }
}

/// What translating an address comes to, in plain values.
pub enum Translation {
    /// Mapped: the start of the page, the start of the frame, the size of both, and the
    /// mapping flags.
    Mapped { page: u64, frame: u64, size: u64, flags: u64 },
    /// Not mapped.
    NotMapped,
    /// A level-1 entry has the huge-page bit, which is invalid.
    Invalid,
}

/// The mapping that the entry word `e` makes of the page starting at `page`, of `size` bytes.
pub open spec fn mapped_by(e: u64, page: u64, size: u64) -> Translation {
    Translation::Mapped {
        page: page,
        frame: entry_addr(e),
        size: size,
        flags: map_flags_of(e & PAGE_TABLE_FLAGS_ALL),
    }
}

/// What the entries on the way to `addr` say: `e3` of the level-3 table, then, where the walk
/// goes on, `e2` of the level-2 table and `e1` of the level-1 table.
///
/// The first entry that is not present gives `NotMapped`. A huge level-3 or level-2 entry maps
/// a large or medium page: the address with the lower table indices and the offset cleared.
/// A huge level-1 entry is `Invalid`. Otherwise the level-1 entry maps the small page.
pub open spec fn translate_spec(addr: u64, e3: u64, e2: Option<u64>, e1: Option<u64>) -> Translation {
    let i4 = index_of(addr, 4);
    let i3 = index_of(addr, 3);
    let i2 = index_of(addr, 2);
    let i1 = index_of(addr, 1);
    if !entry_present(e3) {
        Translation::NotMapped
    } else if entry_huge(e3) {
        mapped_by(e3, canonical_virt(build_spec(i4, i3, 0, 0)), LARGE_SIZE)
    } else {
        match e2 {
            None => Translation::NotMapped,
            Some(e2) => if !entry_present(e2) {
                Translation::NotMapped
            } else if entry_huge(e2) {
                mapped_by(e2, canonical_virt(build_spec(i4, i3, i2, 0)), MEDIUM_SIZE)
            } else {
                match e1 {
                    None => Translation::NotMapped,
                    Some(e1) => if !entry_present(e1) {
                        Translation::NotMapped
                    } else if entry_huge(e1) {
                        Translation::Invalid
                    } else {
                        mapped_by(e1, canonical_virt(build_spec(i4, i3, i2, i1)), SMALL_SIZE)
                    },
                }
            },
        }
    }
}

/// The result `r` says what `t` says.
pub open spec fn translates_as(r: TranslateResult, t: Translation) -> bool {
    match t {
        Translation::Mapped { page, frame, size, flags } => r matches TranslateResult::Success(
            m,
            f,
        ) && m.spec_parts() == (page, frame, size) && f@ == flags,
        Translation::NotMapped => r is NotMapped,
        Translation::Invalid => r matches TranslateResult::Error(e) && e == MemError::InvalidOperation,
    }
}

/// Rebuilding a canonical address from its own table indices, with the lower ones at zero,
/// clears its offset inside the page of the level it stops at.
proof fn lemma_rebuilt_page(a: u64)
    by (bit_vector)
    requires
        valid_virt(a),
    ensures
        canonical_virt(build_spec((a >> 39u64) & 0x1FFu64, (a >> 30u64) & 0x1FFu64, 0, 0)) == a & !0x3FFF_FFFFu64,
        canonical_virt(build_spec((a >> 39u64) & 0x1FFu64, (a >> 30u64) & 0x1FFu64, (a >> 21u64) & 0x1FFu64, 0))
            == a & !0x1F_FFFFu64,
        canonical_virt(
            build_spec(
                (a >> 39u64) & 0x1FFu64,
                (a >> 30u64) & 0x1FFu64,
                (a >> 21u64) & 0x1FFu64,
                (a >> 12u64) & 0x1FFu64,
            ),
        ) == a & !0xFFFu64,
{
}

/// The law of translation, in terms of the address and the entries: the walk stops at the
/// first entry that is not present (`NotMapped`); an entry that maps a page (a huge level-3 or
/// level-2 entry, or a level-1 entry without the huge bit) gives the page that holds the address
/// (the address with the offset bits of that page size cleared), the frame the entry holds, and
/// the flags of that very entry, whatever the entries above it say; a huge level-1 entry is
/// invalid.
pub proof fn lemma_translate_law(addr: u64, e3: u64, e2: Option<u64>, e1: Option<u64>)
    requires
        valid_virt(addr),
    ensures
        !entry_present(e3) ==> translate_spec(addr, e3, e2, e1) is NotMapped,
        entry_present(e3) && entry_huge(e3) ==> translate_spec(addr, e3, e2, e1) == (Translation::Mapped {
            page: addr & !0x3FFF_FFFFu64,
            frame: entry_addr(e3),
            size: LARGE_SIZE,
            flags: map_flags_of(e3 & PAGE_TABLE_FLAGS_ALL),
        }),
        entry_present(e3) && !entry_huge(e3) ==> (e2 matches Some(x2) ==> {
            &&& !entry_present(x2) ==> translate_spec(addr, e3, e2, e1) is NotMapped
            &&& entry_present(x2) && entry_huge(x2) ==> translate_spec(addr, e3, e2, e1) == (Translation::Mapped {
                page: addr & !0x1F_FFFFu64,
                frame: entry_addr(x2),
                size: MEDIUM_SIZE,
                flags: map_flags_of(x2 & PAGE_TABLE_FLAGS_ALL),
            })
            &&& entry_present(x2) && !entry_huge(x2) ==> (e1 matches Some(x1) ==> {
                &&& !entry_present(x1) ==> translate_spec(addr, e3, e2, e1) is NotMapped
                &&& entry_present(x1) && entry_huge(x1) ==> translate_spec(addr, e3, e2, e1) is Invalid
                &&& entry_present(x1) && !entry_huge(x1) ==> translate_spec(addr, e3, e2, e1) == (Translation::Mapped {
                    page: addr & !0xFFFu64,
                    frame: entry_addr(x1),
                    size: SMALL_SIZE,
                    flags: map_flags_of(x1 & PAGE_TABLE_FLAGS_ALL),
                })
            })
        }),
{
    lemma_rebuilt_page(addr);
    assert(index_of(addr, 4) == (addr >> 39u64) & 0x1FFu64);
    assert(index_of(addr, 3) == (addr >> 30u64) & 0x1FFu64);
    assert(index_of(addr, 2) == (addr >> 21u64) & 0x1FFu64);
    assert(index_of(addr, 1) == (addr >> 12u64) & 0x1FFu64);
}

/// An address built from table indices with the lower ones at zero is aligned to the page
/// size of the level it stops at.
proof fn lemma_built_alignment(i4: u64, i3: u64, i2: u64, i1: u64)
    by (bit_vector)
    requires
        i4 < 512,
        i3 < 512,
        i2 < 512,
        i1 < 512,
    ensures
        canonical_virt(build_spec(i4, i3, 0, 0)) % 0x4000_0000 == 0,
        canonical_virt(build_spec(i4, i3, i2, 0)) % 0x20_0000 == 0,
        canonical_virt(build_spec(i4, i3, i2, i1)) % 0x1000 == 0,
{
}

/// Translates `addr` from the entries on the way to it: `l3` of the level-3 table, `l2` of
/// the level-2 table where `l3` points to one, and `l1` of the level-1 table where `l2` points
/// to one. A huge entry must hold an address aligned to the size of the page it maps.
pub fn translate_entries(
    addr: VirtAddr,
    l3: PageTableEntry,
    l2: Option<PageTableEntry>,
    l1: Option<PageTableEntry>,
) -> (r: TranslateResult)
    requires
        entry_present(l3@) && !entry_huge(l3@) ==> l2 is Some,
        entry_present(l3@) && entry_huge(l3@) ==> entry_addr(l3@) % LARGE_SIZE == 0,
        l2 matches Some(e2) ==> (entry_present(e2@) && !entry_huge(e2@) ==> l1 is Some),
        l2 matches Some(e2) ==> (entry_present(e2@) && entry_huge(e2@) ==> entry_addr(e2@)
            % MEDIUM_SIZE == 0),
    ensures
        translates_as(
            r,
            translate_spec(
                addr@,
                l3@,
                match l2 {
                    Some(e) => Some(e@),
                    None => None,
                },
                match l1 {
                    Some(e) => Some(e@),
                    None => None,
                },
            ),
        ),
        entry_present(l3@) && entry_huge(l3@) ==> translates_as(
            r,
            Translation::Mapped {
                page: addr@ & !0x3FFF_FFFFu64,
                frame: entry_addr(l3@),
                size: LARGE_SIZE,
                flags: map_flags_of(l3@ & PAGE_TABLE_FLAGS_ALL),
            },
        ),
        l2 matches Some(x2) ==> (entry_present(l3@) && !entry_huge(l3@) && entry_present(x2@) && entry_huge(
            x2@,
        ) ==> translates_as(
            r,
            Translation::Mapped {
                page: addr@ & !0x1F_FFFFu64,
                frame: entry_addr(x2@),
                size: MEDIUM_SIZE,
                flags: map_flags_of(x2@ & PAGE_TABLE_FLAGS_ALL),
            },
        )),
        l2 matches Some(x2) ==> (l1 matches Some(x1) ==> (entry_present(l3@) && !entry_huge(l3@)
            && entry_present(x2@) && !entry_huge(x2@) && entry_present(x1@) && !entry_huge(x1@)
            ==> translates_as(
            r,
            Translation::Mapped {
                page: addr@ & !0xFFFu64,
                frame: entry_addr(x1@),
                size: SMALL_SIZE,
                flags: map_flags_of(x1@ & PAGE_TABLE_FLAGS_ALL),
            },
        ))),
{
    // The call shows that the address is canonical.
    let _av = addr.as_u64();
    proof {
        lemma_translate_law(
            addr@,
            l3@,
            match l2 {
                Some(e) => Some(e@),
                None => None,
            },
            match l1 {
                Some(e) => Some(e@),
                None => None,
            },
        );
    }
    let (i4, i3, i2, i1) = dissolve_address(addr);
    let zero = PageTableIndex::new(0);
    let (v4, v3, v2, v1) = (i4.value(), i3.value(), i2.value(), i1.value());
    proof {
        lemma_built_alignment(v4 as u64, v3 as u64, v2 as u64, v1 as u64);
    }
    if !l3.is_present() {
        return TranslateResult::NotMapped;
    } else if l3.is_huge() {
        let frame = Frame::<Large>::new(l3.addr());
        let page = Page::<Large>::new(build_vaddress(i4, i3, zero, zero));
        return TranslateResult::Success(DirectMapping::Large(page, frame), l3.flags());
    }
    let e2 = match l2 {
        Some(e) => e,
        None => return TranslateResult::NotMapped,
    };
    if !e2.is_present() {
        return TranslateResult::NotMapped;
    } else if e2.is_huge() {
        let frame = Frame::<Medium>::new(e2.addr());
        let page = Page::<Medium>::new(build_vaddress(i4, i3, i2, zero));
        return TranslateResult::Success(DirectMapping::Medium(page, frame), e2.flags());
    }
    let e1 = match l1 {
        Some(e) => e,
        None => return TranslateResult::NotMapped,
    };
    if !e1.is_present() {
        return TranslateResult::NotMapped;
    } else if e1.is_huge() {
        return TranslateResult::Error(MemError::InvalidOperation);
    }
    let frame = Frame::<Small>::new(e1.addr());
    let page = Page::<Small>::new(build_vaddress(i4, i3, i2, i1));
    TranslateResult::Success(DirectMapping::Small(page, frame), e1.flags())
}

/// A table at `level` may be freed once it is empty: the tables below the level-4 table
/// (levels 1 and 2) can be, the level-3 tables, whose entries in the level-4 table carry the
/// access flags of the whole address space, never are.
pub open spec fn parent_freeable(level: u8) -> bool {
    level < 3
}

/// One step of freeing the parents of an unmapped page: the table at `level` (whose own entry
/// in its parent is `parent_entry`) is freed when nothing in it is present any more and it is
/// below the level-4 table; the result is the frame that held it, or `None` when the walk
/// stops here.
pub fn free_parent_step(level: u8, child_any_present: bool, parent_entry: PageTableEntry) -> (r: Option<Frame<Small>>)
    requires
        1 <= level <= 3,
    ensures
        r is None <==> (child_any_present || !parent_freeable(level)),
        r matches Some(f) ==> f@ == entry_addr(parent_entry@),
{
    if child_any_present || level >= 3 {
        None
    } else {
        Some(Frame::<Small>::new(parent_entry.addr()))
    }
}

/// One step of copying the mappings of a range from one address space to another: what the
/// translation `t` of the next address to copy gives. The mapping, with its flags, when its
/// page starts at `expected`, the next page boundary of the range; `InvalidOperation` when it
/// starts elsewhere; `NotMapped` of the range's first page `first` when the address is not
/// mapped; and the error of the translation when it failed.
pub fn copy_step(first: Page<Small>, expected: VirtAddr, t: TranslateResult) -> (r: Result<(DirectMapping, MapFlags), MemError>)
    ensures
        match t {
            TranslateResult::Success(m, f) => if m.spec_parts().0 == expected@ {
                r == Ok::<(DirectMapping, MapFlags), MemError>((m, f))
            } else {
                r == Err::<(DirectMapping, MapFlags), MemError>(MemError::InvalidOperation)
            },
            TranslateResult::NotMapped => r == Err::<(DirectMapping, MapFlags), MemError>(
                MemError::NotMapped(AnyFragment::Small(first)),
            ),
            TranslateResult::Error(e) => r == Err::<(DirectMapping, MapFlags), MemError>(e),
        },
{
    match t {
        TranslateResult::Success(m, f) => {
            let page = m.page();
            if page.start_address().as_u64() != expected.as_u64() {
                return Err(MemError::InvalidOperation);
            }
            Ok((m, f))
        },
        TranslateResult::NotMapped => Err(MemError::NotMapped(AnyFragment::Small(first))),
        TranslateResult::Error(e) => Err(e),
    }
}

} // verus!
