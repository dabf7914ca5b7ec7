//! Architecture constants and address canonicalisation for x86_64.
use vstd::prelude::*;

verus! {

/// The width of virtual addresses in bits.
pub const VIRTUAL_ADDRESS_WIDTH: u8 = 48;
/// The maximum valid virtual address of the lower half.
pub const VIRTUAL_ADDRESS_MAX: u64 = 0xFFFF_FFFF_FFFFu64;
/// The width of physical addresses in bits.
pub const PHYSICAL_ADDRESS_WIDTH: u8 = 52;
/// The maximum valid physical address.
pub const PHYSICAL_ADDRESS_MAX: u64 = 0xF_FFFF_FFFF_FFFFu64;
/// The number of bits used to index one page table level.
pub const TABLE_INDEX_BITS: u64 = 9;
/// The number of bits of the offset inside a small page.
pub const ENTRY_OFFSET_BITS: u64 = 12;
/// The number of entries in one page table.
pub const ENTRY_COUNT: usize = 512;
/// The size of a level 1 (small) page.
pub const L1_PAGE_SIZE: u64 = 4096;
/// The size of a level 2 (medium) page.
pub const L2_PAGE_SIZE: u64 = 0x20_0000u64;
/// The size of a level 3 (large) page.
pub const L3_PAGE_SIZE: u64 = 0x4000_0000u64;
/// The size of the memory one bit of an allocation bitmap stands for.
pub const TABLE_SIZE: u64 = 4096;

/// Mask of the bits above the sign bit of a virtual address.
pub const VIRT_HIGH_BITS: u64 = 0xFFFF_0000_0000_0000u64;
/// Mask of the bits of a lower-half virtual address.
pub const VIRT_LOW_BITS: u64 = 0x0000_FFFF_FFFF_FFFFu64;
/// The sign bit of a virtual address.
pub const VIRT_SIGN_BIT: u64 = 0x0000_8000_0000_0000u64;

/// Sign extension of bit 47, as the MMU reads an address.
pub open spec fn canonical_virt(v: u64) -> u64 {
    if v & VIRT_SIGN_BIT != 0 {
        v | VIRT_HIGH_BITS
    } else {
        v & VIRT_LOW_BITS
    }
}

/// Truncation to the physical address width.
pub open spec fn canonical_phys(v: u64) -> u64 {
    v & PHYSICAL_ADDRESS_MAX
}

/// A virtual address is valid when it lies in the lower or the upper canonical half.
pub open spec fn valid_virt(v: u64) -> bool {
    v < VIRT_SIGN_BIT || v >= VIRT_HIGH_BITS | VIRT_SIGN_BIT
}

/// A physical address is valid when it fits in the physical address width.
pub open spec fn valid_phys(v: u64) -> bool {
    v <= PHYSICAL_ADDRESS_MAX
}

/// The canonical form of a virtual address is valid, and a valid address is its own canonical form.
pub proof fn lemma_canonical_virt(v: u64)
    by (bit_vector)
    ensures
        valid_virt(canonical_virt(v)),
        valid_virt(v) <==> canonical_virt(v) == v,
        v < VIRT_SIGN_BIT ==> canonical_virt(v) == v,
        canonical_virt(VIRT_SIGN_BIT) == VIRT_HIGH_BITS | VIRT_SIGN_BIT,
{
}

/// The values of the shifts and masks that the address arithmetic uses.
pub proof fn lemma_shift_constants()
    by (bit_vector)
    ensures
        1u64 << 0u64 == 1,
        1u64 << 6u64 == 64,
        1u64 << 9u64 == 512,
        1u64 << 12u64 == 4096,
        1u64 << 18u64 == 0x4_0000,
        1u64 << 21u64 == 0x20_0000,
        1u64 << 30u64 == 0x4000_0000,
        VIRT_HIGH_BITS | VIRT_SIGN_BIT == 0xFFFF_8000_0000_0000u64,
{
}

/// The truncated form of a physical address is valid, and a valid address is its own truncation.
pub proof fn lemma_canonical_phys(v: u64)
    by (bit_vector)
    ensures
        valid_phys(canonical_phys(v)),
        valid_phys(v) <==> canonical_phys(v) == v,
{
}

/// Sign-extends bit 47 of `addr`, giving the canonical virtual address the MMU would use.
pub fn canonicalize_virt(addr: u64) -> (r: u64)
    ensures
        r == canonical_virt(addr),
        valid_virt(r),
{
    proof {
        lemma_canonical_virt(addr);
    }
    if addr & VIRT_SIGN_BIT != 0 {
        addr | VIRT_HIGH_BITS
    } else {
        addr & VIRT_LOW_BITS
    }
}

/// Truncates `addr` to the physical address width.
pub fn canonicalize_phys(addr: u64) -> (r: u64)
    ensures
        r == canonical_phys(addr),
        valid_phys(r),
{
    proof {
        lemma_canonical_phys(addr);
    }
    addr & PHYSICAL_ADDRESS_MAX
}

/// Validates that the given physical address is valid for the current architecture.
pub fn is_valid_phys(addr: u64) -> (r: bool)
    ensures
        r == valid_phys(addr),
{
    proof {
        lemma_canonical_phys(addr);
    }
    canonicalize_phys(addr) == addr
}

/// Validates that the given virtual address is valid for the current architecture.
pub fn is_valid_virt(addr: u64) -> (r: bool)
    ensures
        r == valid_virt(addr),
{
    proof {
        lemma_canonical_virt(addr);
    }
    canonicalize_virt(addr) == addr
}

} // verus!
