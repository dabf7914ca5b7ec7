use nmm::accessor::{build_address, build_vaddress, dissolve_address, TablePointer};
use nmm::addr::{PhysAddr, VirtAddr};
use nmm::align::Alignment;
use nmm::bitmap::run_mask;
use nmm::bitptr::BitPtr;
use nmm::bits::{bit_run_mask, entry_mask};
use nmm::fragment::{GreedyFragmentMapper, JointFragmentMapper};
use nmm::index::PageTableIndex;
use nmm::mem::PageTableFlags;
use nmm::primitives::{AnyFragment, Frame, FrameClass, Large, Medium, MemoryRange, Page, PageClass, Small};
use x86_64::structures::paging::page_table::PageTableFlags as X86Flags;

const SMALL: u64 = 0x1000;
const MEDIUM: u64 = 0x20_0000;
const LARGE: u64 = 0x4000_0000;

#[test]
fn test_phys_addr_add_checked() {
    let addr = PhysAddr::new(0x1000);
    assert_eq!(addr.add_checked(0x1000), Some(PhysAddr::new(0x2000)));
    assert_eq!(addr.add_checked(0xFFFFFFFFFFFFF000), None);
    assert_eq!(addr.add_checked(0xFFFFFFFFFFFFE000), None);
}

#[test]
fn test_virt_addr_add_checked() {
    let addr = VirtAddr::new(0x1000);
    assert_eq!(addr.add_checked(0x1000), Some(VirtAddr::new(0x2000)));
    assert_eq!(addr.add_checked(0xFFFFFFFFFFFFF000), None);
    assert_eq!(addr.add_checked(0xFFFFFFFFFFFFE000), None);
}

#[test]
fn test_bitptr() {
    let bit_ptr = BitPtr::new(5, 10);
    assert_eq!(bit_ptr.entry_index(), 5);
    assert_eq!(bit_ptr.bit_offset(), 10);
    assert_eq!(bit_ptr.bit_index(), 5 * 64 + 10);

    let bit_ptr = BitPtr::new_wrapping(5, 130);
    assert_eq!(bit_ptr.entry_index(), 7);
    assert_eq!(bit_ptr.bit_offset(), 2);
    assert_eq!(bit_ptr.bit_index(), 7 * 64 + 2);
}

#[test]
fn test_bitptr_overflow() {
    let bit_ptr = BitPtr::new(5, 10);
    assert!(!bit_ptr.will_overflow(50));
    assert!(bit_ptr.will_overflow(55));
}

#[test]
fn test_bit_run_mask() {
    assert_eq!(bit_run_mask(0), 0);
    assert_eq!(bit_run_mask(1), 1);
    assert_eq!(bit_run_mask(5), 0b11111);
    assert_eq!(bit_run_mask(64), u64::MAX);
    assert_eq!(bit_run_mask(65), u64::MAX);
}

#[test]
fn test_entry_mask() {
    assert_eq!(entry_mask(0, 0), Ok(0));
    assert_eq!(entry_mask(0, 1), Ok(1));
    assert_eq!(entry_mask(0, 64), Ok(u64::MAX));
    assert_eq!(entry_mask(1, 3), Ok(0b1110));
    assert_eq!(entry_mask(60, 5), Err((0b11111 << 60, 1)));
    assert_eq!(entry_mask(0, 128), Err((u64::MAX, 64)));
}

fn run_mask_case(size: u64, align: usize, expected_mask: u64, expected_n_reps: u64) {
    assert_eq!(
        run_mask(size, Alignment::new(align).unwrap()).unwrap(),
        (expected_n_reps, expected_mask),
        "run_mask({}, {})",
        size,
        align
    );
}

fn run_mask_none(size: u64, align: usize) {
    assert!(
        run_mask(size, Alignment::new(align).unwrap()).is_none(),
        "run_mask({}, {}) should be None",
        size,
        align
    );
}

#[test]
fn test_run_mask() {
    run_mask_case(
        3,
        8,
        0b0000_0111_0000_0111_0000_0111_0000_0111_0000_0111_0000_0111_0000_0111_0000_0111,
        8,
    );
    run_mask_case(8, 8, u64::MAX, 8);
    run_mask_case(
        8,
        32,
        0b0000_0000_0000_0000_0000_0000_1111_1111_0000_0000_0000_0000_0000_0000_1111_1111,
        2,
    );
    run_mask_case(32, 128, 0x0000_0000_FFFF_FFFF, 1);
    run_mask_none(33, 32);
    run_mask_none(2, 1);
    run_mask_none(128, 128);
}

#[test]
fn assert_flags_correctness() {
    assert_eq!(PageTableFlags::PRESENT, X86Flags::PRESENT.bits(), "PRESENT");
    assert_eq!(PageTableFlags::WRITABLE, X86Flags::WRITABLE.bits(), "WRITABLE");
    assert_eq!(PageTableFlags::USER_ACCESSIBLE, X86Flags::USER_ACCESSIBLE.bits(), "USER_ACCESSIBLE");
    assert_eq!(PageTableFlags::WRITE_THROUGH, X86Flags::WRITE_THROUGH.bits(), "WRITE_THROUGH");
    assert_eq!(PageTableFlags::NO_CACHE, X86Flags::NO_CACHE.bits(), "NO_CACHE");
    assert_eq!(PageTableFlags::ACCESSED, X86Flags::ACCESSED.bits(), "ACCESSED");
    assert_eq!(PageTableFlags::DIRTY, X86Flags::DIRTY.bits(), "DIRTY");
    assert_eq!(PageTableFlags::HUGE_PAGE, X86Flags::HUGE_PAGE.bits(), "HUGE_PAGE");
    assert_eq!(PageTableFlags::GLOBAL, X86Flags::GLOBAL.bits(), "GLOBAL");
    assert_eq!(PageTableFlags::NO_EXECUTE, X86Flags::NO_EXECUTE.bits(), "NO_EXECUTE");
}

#[test]
fn test_build_and_dissolve_address() {
    let l4_idx = PageTableIndex::new(511);
    let l3_idx = PageTableIndex::new(2);
    let l2_idx = PageTableIndex::new(3);
    let l1_idx = PageTableIndex::new(4);

    let addr = ((build_address(l4_idx, l3_idx, l2_idx, l1_idx) as i64) << 16 >> 16) as u64;
    let (d4, d3, d2, d1) = dissolve_address(VirtAddr::new(addr));
    assert_eq!(l4_idx, d4);
    assert_eq!(l3_idx, d3);
    assert_eq!(l2_idx, d2);
    assert_eq!(l1_idx, d1);

    let addr = build_vaddress(l4_idx, l3_idx, l2_idx, l1_idx);
    let (d4, d3, d2, d1) = dissolve_address(addr);
    assert_eq!(l4_idx, d4);
    assert_eq!(l3_idx, d3);
    assert_eq!(l2_idx, d2);
    assert_eq!(l1_idx, d1);
}

#[test]
fn build_address_places_each_index() {
    let a = build_address(
        PageTableIndex::new(1),
        PageTableIndex::new(2),
        PageTableIndex::new(3),
        PageTableIndex::new(4),
    );
    assert_eq!(a, (1u64 << 39) | (2u64 << 30) | (3u64 << 21) | (4u64 << 12));
}

#[test]
fn table_pointer_keeps_level_and_indices() {
    let p = TablePointer::new_l2(PageTableIndex::new(5), PageTableIndex::new(7));
    assert_eq!(p.level(), 2);
    assert_eq!(p.address().as_u64(), (5u64 << 39) | (7u64 << 30));
    let (a, b, c) = p.dissolve();
    assert_eq!((a.value(), b.value(), c.value()), (5, 7, 0));
    let p = TablePointer::new_l1(PageTableIndex::new(1), PageTableIndex::new(2), PageTableIndex::new(3));
    assert_eq!(p.level(), 1);
    let p = TablePointer::new_l3(PageTableIndex::new(255));
    assert_eq!(p.level(), 3);
}

#[test]
fn page_table_index_bounds() {
    assert!(PageTableIndex::try_new(511).is_some());
    assert!(PageTableIndex::try_new(512).is_none());
    let mut it = PageTableIndex::iter_range(PageTableIndex::new(3)..PageTableIndex::new(5));
    assert_eq!(it.next().map(|i| i.value()), Some(3));
    assert_eq!(it.next().map(|i| i.value()), Some(4));
    assert_eq!(it.next(), None);
    let mut all = PageTableIndex::iter_all();
    let mut n = 0;
    while all.next().is_some() {
        n += 1;
    }
    assert_eq!(n, 512);
}

fn greedy(vaddr: u64, len: u64) -> GreedyFragmentMapper<PageClass> {
    GreedyFragmentMapper::<PageClass>::new(VirtAddr::new(vaddr), len)
}

#[test]
fn test_greedy_next_fragment() {
    let mut mapper = greedy(3, 3 * LARGE + MEDIUM);
    assert_eq!(
        mapper.next_fragment(),
        Some(AnyFragment::Large(Page::<Large>::from_start_address(VirtAddr::new(0)).unwrap()))
    );
    assert_eq!(
        mapper.next_fragment(),
        Some(AnyFragment::Large(Page::<Large>::from_start_address(VirtAddr::new(LARGE)).unwrap()))
    );
    assert_eq!(
        mapper.next_fragment(),
        Some(AnyFragment::Large(
            Page::<Large>::from_start_address(VirtAddr::new(2 * LARGE)).unwrap()
        ))
    );
    assert_eq!(
        mapper.next_fragment(),
        Some(AnyFragment::Medium(
            Page::<Medium>::from_start_address(VirtAddr::new(3 * LARGE)).unwrap()
        ))
    );
    assert_eq!(mapper.next_fragment(), None);
}

#[test]
fn greedy_take_same_follows_the_given_sizes() {
    let mut mapper = greedy(3, 3 * LARGE + MEDIUM);
    let large1 = mapper.next_fragment().unwrap();
    let large2 = mapper.next_fragment().unwrap();
    let large3 = mapper.next_fragment().unwrap();
    let medium1 = mapper.next_fragment().unwrap();

    let mut mapper = greedy(3, 3 * LARGE + MEDIUM);
    assert_eq!(mapper.try_take_same(large1), Some(large1));
    assert_eq!(mapper.try_take_same(large2), Some(large2));
    assert_eq!(mapper.try_take_same(large3), Some(large3));
    assert_eq!(mapper.try_take_same(medium1), Some(medium1));

    let mut mapper = greedy(0, MEDIUM);
    let page = AnyFragment::Small(Page::<Small>::try_new(VirtAddr::new(0)).unwrap());
    assert_eq!(mapper.try_take_same(page), Some(page));
    for i in 0..(MEDIUM / SMALL) - 1 {
        assert_eq!(
            mapper.next_fragment(),
            Some(AnyFragment::Small(
                Page::<Small>::try_new(VirtAddr::new((i + 1) * SMALL)).unwrap()
            ))
        );
    }
    assert_eq!(mapper.next_fragment(), None);
}

#[test]
fn test_joint_fragment_mapper_optimal() {
    let mut mapper = JointFragmentMapper::new(VirtAddr::new(3), PhysAddr::new(3), 3 * LARGE + MEDIUM);
    for i in 0..3 {
        assert_eq!(
            mapper.next(),
            Some((
                AnyFragment::Large(Page::<Large>::from_start_address(VirtAddr::new(i * LARGE)).unwrap()),
                AnyFragment::Large(Frame::<Large>::from_start_address(PhysAddr::new(i * LARGE)).unwrap())
            ))
        );
    }
    assert_eq!(
        mapper.next(),
        Some((
            AnyFragment::Medium(Page::<Medium>::from_start_address(VirtAddr::new(3 * LARGE)).unwrap()),
            AnyFragment::Medium(Frame::<Medium>::from_start_address(PhysAddr::new(3 * LARGE)).unwrap())
        ))
    );
    assert_eq!(mapper.next(), None);
}

#[test]
fn test_joint_fragment_mapper_non_optimal() {
    let mut mapper = JointFragmentMapper::new(VirtAddr::new(0), PhysAddr::new(0x2000), MEDIUM);
    for i in 0..(MEDIUM / SMALL) {
        assert_eq!(
            mapper.next(),
            Some((
                AnyFragment::<PageClass>::Small(Page::from_start_address(VirtAddr::new(i * SMALL)).unwrap()),
                AnyFragment::<FrameClass>::Small(
                    Frame::from_start_address(PhysAddr::new(0x2000 + (i * SMALL))).unwrap()
                )
            ))
        );
    }
}

#[test]
fn joint_mapper_pairs_have_equal_sizes() {
    let mut mapper = JointFragmentMapper::new(VirtAddr::new(LARGE), PhysAddr::new(MEDIUM), LARGE + 2 * MEDIUM);
    let mut total = 0;
    while let Some((p, f)) = mapper.next() {
        assert_eq!(p.size(), f.size());
        assert_eq!(p.start_address().as_u64() - LARGE, f.start_address().as_u64() - MEDIUM);
        total += p.size();
    }
    assert_eq!(total, LARGE + 2 * MEDIUM);
}

#[test]
fn phys_add_checked_covers_the_physical_width() {
    let a = PhysAddr::new(0x1000);
    assert_eq!(a.add_checked(1 << 48), Some(PhysAddr::new((1 << 48) + 0x1000)));
    assert_eq!(a.add_checked((1 << 52) - 0x2000), Some(PhysAddr::new((1 << 52) - 0x1000)));
    assert_eq!(a.add_checked((1 << 52) - 0x1000), None);
}

#[test]
fn memory_range_may_be_empty() {
    let s = VirtAddr::new(0x2000);
    let empty = MemoryRange::try_new(s, s).unwrap();
    assert_eq!(empty.size(), 0);
    assert!(MemoryRange::try_new(VirtAddr::new(0x3000), s).is_none());
    let r = MemoryRange::try_new(s, VirtAddr::new(0x5000)).unwrap();
    assert_eq!(r.size(), 0x3000);
    assert_eq!(MemoryRange::try_new_len(s, 0).unwrap().size(), 0);
}

#[test]
fn greedy_walk_covers_the_rounded_range() {
    // 2 MiB + 5 KiB from 2 MiB - 4 KiB: one small page, then a medium page, then small pages.
    let base = 0x20_0000 - 0x1000;
    let len = 0x20_0000 + 0x1400;
    let mut m = GreedyFragmentMapper::<PageClass>::new(VirtAddr::new(base), len);
    let mut next = base;
    let mut total = 0;
    let mut sizes = Vec::new();
    while let Some(f) = m.next_fragment() {
        assert_eq!(f.start_address().as_u64(), next);
        assert_eq!(f.start_address().as_u64() % f.size(), 0);
        next += f.size();
        total += f.size();
        sizes.push(f.size());
    }
    assert_eq!(total, 0x20_2000);
    assert_eq!(sizes, vec![0x1000, 0x20_0000, 0x1000]);
    assert!(m.next_fragment().is_none());
}
