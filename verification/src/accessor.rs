//! Virtual addresses built from and dissolved into page-table indices, and pointers to the
//! page tables of the recursive mapping.
use vstd::prelude::*;
use crate::addr::VirtAddr;
use crate::arch::{canonical_virt, VIRT_HIGH_BITS, VIRT_SIGN_BIT};
use crate::index::PageTableIndex;

verus! {

/// The address whose page-table indices are `i4`, `i3`, `i2` and `i1`, with a zero offset
/// and no sign extension.
pub open spec fn build_spec(i4: u64, i3: u64, i2: u64, i1: u64) -> u64 {
    (i4 << 39u64) | (i3 << 30u64) | (i2 << 21u64) | (i1 << 12u64)
}

/// The page-table index of level `level` (1 to 4) in the address `a`.
pub open spec fn index_of(a: u64, level: u64) -> u64 {
    (a >> (12 + 9 * (level - 1)) as u64) & 0x1FFu64
}

/// Builds the address whose page-table indices are the given ones, with a zero offset and
/// no sign extension.
pub fn build_address(
    l4_idx: PageTableIndex,
    l3_idx: PageTableIndex,
    l2_idx: PageTableIndex,
    l1_idx: PageTableIndex,
) -> (r: u64)
    ensures
        r == build_spec(l4_idx@ as u64, l3_idx@ as u64, l2_idx@ as u64, l1_idx@ as u64),
        l4_idx@ < 512 && l3_idx@ < 512 && l2_idx@ < 512 && l1_idx@ < 512,
{
    let mut addr: u64 = 0;
    addr = addr | (l4_idx.as_u64() << 39u64);
    addr = addr | (l3_idx.as_u64() << 30u64);
    addr = addr | (l2_idx.as_u64() << 21u64);
    addr = addr | (l1_idx.as_u64() << 12u64);
    proof {
        let (a, b, c, d) = (l4_idx@ as u64, l3_idx@ as u64, l2_idx@ as u64, l1_idx@ as u64);
        assert(0u64 | (a << 39u64) == a << 39u64) by (bit_vector);
    }
    addr
}

/// Builds the canonical virtual address whose page-table indices are the given ones.
pub fn build_vaddress(
    l4_idx: PageTableIndex,
    l3_idx: PageTableIndex,
    l2_idx: PageTableIndex,
    l1_idx: PageTableIndex,
) -> (r: VirtAddr)
    ensures
        r@ == canonical_virt(build_spec(l4_idx@ as u64, l3_idx@ as u64, l2_idx@ as u64, l1_idx@ as u64)),
{
    VirtAddr::new_truncate(build_address(l4_idx, l3_idx, l2_idx, l1_idx))
}

/// Dissolves a virtual address into its page-table indices, from level 4 down to level 1.
pub fn dissolve_address(addr: VirtAddr) -> (r: (PageTableIndex, PageTableIndex, PageTableIndex, PageTableIndex))
    ensures
        r.0@ == index_of(addr@, 4),
        r.1@ == index_of(addr@, 3),
        r.2@ == index_of(addr@, 2),
        r.3@ == index_of(addr@, 1),
{
    let v = addr.as_u64();
    assert(forall|s: u64| #[trigger] ((v >> s) & 0x1FFu64) < 512) by (bit_vector);
    let l4 = PageTableIndex::new(((v >> 39u64) & 0x1FF) as u16);
    let l3 = PageTableIndex::new(((v >> 30u64) & 0x1FF) as u16);
    let l2 = PageTableIndex::new(((v >> 21u64) & 0x1FF) as u16);
    let l1 = PageTableIndex::new(((v >> 12u64) & 0x1FF) as u16);
    (l4, l3, l2, l1)
}

/// Dissolving an address built from indices gives the indices back, whether the address is
/// left as built or made canonical.
pub proof fn lemma_build_dissolve(i4: u64, i3: u64, i2: u64, i1: u64)
    requires
        i4 < 512,
        i3 < 512,
        i2 < 512,
        i1 < 512,
    ensures
        ({
            let a = build_spec(i4, i3, i2, i1);
            &&& index_of(a, 4) == i4
            &&& index_of(a, 3) == i3
            &&& index_of(a, 2) == i2
            &&& index_of(a, 1) == i1
            &&& index_of(canonical_virt(a), 4) == i4
            &&& index_of(canonical_virt(a), 3) == i3
            &&& index_of(canonical_virt(a), 2) == i2
            &&& index_of(canonical_virt(a), 1) == i1
        }),
{
    let a = build_spec(i4, i3, i2, i1);
    assert(((a >> 39u64) & 0x1FFu64) == i4 && ((a >> 30u64) & 0x1FFu64) == i3 && ((a >> 21u64)
        & 0x1FFu64) == i2 && ((a >> 12u64) & 0x1FFu64) == i1) by (bit_vector)
        requires
            i4 < 512,
            i3 < 512,
            i2 < 512,
            i1 < 512,
            a == (i4 << 39u64) | (i3 << 30u64) | (i2 << 21u64) | (i1 << 12u64),
    ;
    let c = canonical_virt(a);
    assert(((c >> 39u64) & 0x1FFu64) == ((a >> 39u64) & 0x1FFu64) && ((c >> 30u64) & 0x1FFu64)
        == ((a >> 30u64) & 0x1FFu64) && ((c >> 21u64) & 0x1FFu64) == ((a >> 21u64) & 0x1FFu64)
        && ((c >> 12u64) & 0x1FFu64) == ((a >> 12u64) & 0x1FFu64)) by (bit_vector)
        requires
            c == (if a & 0x0000_8000_0000_0000u64 != 0 {
                a | 0xFFFF_0000_0000_0000u64
            } else {
                a & 0x0000_FFFF_FFFF_FFFFu64
            }),
    ;
}

/// A pointer to a page table of level 1 to 3 in the recursive mapping: the table's indices,
/// with the level in the low two bits.
#[derive(Clone, Copy, PartialEq, Eq, Debug)]
pub struct TablePointer {
    table: VirtAddr,
}

impl TablePointer {
    /// The address with the level in its low bits.
    pub closed spec fn view(self) -> u64 {
        self.table@
    }

    fn new(l4_idx: PageTableIndex, l3_idx: PageTableIndex, l2_idx: PageTableIndex, level: u8) -> (r: Self)
        requires
            l4_idx@ < 256,
            1 <= level <= 3,
        ensures
            r@ == build_spec(l4_idx@ as u64, l3_idx@ as u64, l2_idx@ as u64, 0) | (level as u64),
    {
        let zero = PageTableIndex::new(0);
        let a = build_address(l4_idx, l3_idx, l2_idx, zero) | level as u64;
        proof {
            let (i4, i3, i2) = (l4_idx@ as u64, l3_idx@ as u64, l2_idx@ as u64);
            let l = level as u64;
            assert(((i4 << 39u64) | (i3 << 30u64) | (i2 << 21u64) | (0u64 << 12u64) | l) < 0x8000_0000_0000u64) by (bit_vector)
                requires
                    i4 < 256,
                    i3 < 512,
                    i2 < 512,
                    l <= 3,
            ;
        }
        TablePointer { table: VirtAddr::new(a) }
    }

    /// A pointer to the level-3 table under the level-4 index `l4_idx`, which must lie in the
    /// lower half.
    pub fn new_l3(l4_idx: PageTableIndex) -> (r: Self)
        requires
            l4_idx@ < 256,
        ensures
            r@ == build_spec(l4_idx@ as u64, 0, 0, 0) | 3u64,
    {
        Self::new(l4_idx, PageTableIndex::new(0), PageTableIndex::new(0), 3)
    }

    /// A pointer to the level-2 table under the given indices; the level-4 index must lie in
    /// the lower half.
    pub fn new_l2(l4_idx: PageTableIndex, l3_idx: PageTableIndex) -> (r: Self)
        requires
            l4_idx@ < 256,
        ensures
            r@ == build_spec(l4_idx@ as u64, l3_idx@ as u64, 0, 0) | 2u64,
    {
        Self::new(l4_idx, l3_idx, PageTableIndex::new(0), 2)
    }

    /// A pointer to the level-1 table under the given indices; the level-4 index must lie in
    /// the lower half.
    pub fn new_l1(l4_idx: PageTableIndex, l3_idx: PageTableIndex, l2_idx: PageTableIndex) -> (r: Self)
        requires
            l4_idx@ < 256,
        ensures
            r@ == build_spec(l4_idx@ as u64, l3_idx@ as u64, l2_idx@ as u64, 0) | 1u64,
    {
        Self::new(l4_idx, l3_idx, l2_idx, 1)
    }

    /// The level of the table pointed to.
    pub fn level(&self) -> (r: u8)
        ensures
            r == self@ & 3u64,
    {
        let v = self.table.as_u64();
        assert(v & 3u64 < 4) by (bit_vector);
        (v & 3) as u8
    }

    /// The address of the table pointed to, without the level.
    pub fn address(&self) -> (r: VirtAddr)
        ensures
            r@ == self@ & !3u64,
    {
        let v = self.table.as_u64();
        proof {
            crate::arch::lemma_shift_constants();
        }
        assert((v < 0x8000_0000_0000u64 ==> v & !3u64 < 0x8000_0000_0000u64) && (v
            >= 0xFFFF_8000_0000_0000u64 ==> v & !3u64 >= 0xFFFF_8000_0000_0000u64)) by (bit_vector);
        VirtAddr::new(v & !3u64)
    }

    /// The level-4, level-3 and level-2 indices of the table pointed to.
    pub fn dissolve(&self) -> (r: (PageTableIndex, PageTableIndex, PageTableIndex))
        ensures
            r.0@ == index_of(self@ & !3u64, 4),
            r.1@ == index_of(self@ & !3u64, 3),
            r.2@ == index_of(self@ & !3u64, 2),
    {
        let (l4_idx, l3_idx, l2_idx, _) = dissolve_address(self.address());
        (l4_idx, l3_idx, l2_idx)
    }
}

} // verus!
