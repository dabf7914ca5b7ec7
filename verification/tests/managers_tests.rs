use nmm::addr::{PhysAddr, VirtAddr};
use nmm::align::Alignment;
use nmm::arch::{L1_PAGE_SIZE, L2_PAGE_SIZE};
use nmm::managers::{
    address_as_bit_index, align_in_bits, alignment_of, bit_index_as_address, BitmapEntry,
    PhysicalMemoryManager, VirtualMemoryManager,
};
use nmm::mem::MemError;
use nmm::primitives::{Frame, Medium, Small};
use nmm::mem::Layout;
use nmm::primitives::MemoryRange;

fn allocate_checked(
    manager: &mut VirtualMemoryManager,
    size_bytes: u64,
    align: u64,
    deallocate: bool,
) -> Option<(VirtAddr, Layout)> {
    let layout = Layout::from_size_align(size_bytes as usize, align as usize).unwrap();
    let addr = manager.allocate(layout).expect("should allocate memory");
    assert_eq!(addr.as_u64() % align, 0, "allocated address should be properly aligned");
    assert!(
        manager.is_allocated(addr, size_bytes),
        "allocated range should have its bits set in the bitmap"
    );
    if deallocate {
        manager.deallocate(addr, layout);
        assert!(manager.is_empty());
        return None;
    }
    Some((addr, layout))
}

fn checked_dealloc(manager: &mut VirtualMemoryManager, addr: VirtAddr, layout: Layout) {
    assert!(
        manager.is_allocated(addr, L1_PAGE_SIZE),
        "attempted to deallocate an address that is not currently allocated"
    );
    manager.deallocate(addr, layout);
}

#[test]
fn test_allocate_and_deallocate() {
    const CAP: u64 = 512;
    let bitmap_data = vec![0u64; CAP as usize];
    let base = VirtAddr::new(0x10000000);
    let mut manager =
        VirtualMemoryManager::init(bitmap_data, MemoryRange::new_len(base, 0x1000 * (64 * CAP)));

    // Allocate a couple independent pages and then deallocate them.
    let (va_1, layout) = allocate_checked(&mut manager, L1_PAGE_SIZE, L1_PAGE_SIZE, false).unwrap();
    let (va_2, _) = allocate_checked(&mut manager, L1_PAGE_SIZE, L1_PAGE_SIZE, false).unwrap();

    checked_dealloc(&mut manager, va_1, layout);
    checked_dealloc(&mut manager, va_2, layout);
    assert!(manager.is_empty());

    // Allocate a couple independent pages again, deallocate in the opposite order.
    let (va_1, layout) = allocate_checked(&mut manager, L1_PAGE_SIZE, L1_PAGE_SIZE, false).unwrap();
    let (va_2, _) = allocate_checked(&mut manager, L1_PAGE_SIZE, L1_PAGE_SIZE, false).unwrap();

    checked_dealloc(&mut manager, va_2, layout);
    checked_dealloc(&mut manager, va_1, layout);
    assert!(manager.is_empty());

    // Allocate 3 pages twice; the allocations must not overlap, and freeing the first must
    // not touch the second.
    let (va3, layout) =
        allocate_checked(&mut manager, 3 * L1_PAGE_SIZE, L1_PAGE_SIZE, false).unwrap();
    let (va4, _) = allocate_checked(&mut manager, 3 * L1_PAGE_SIZE, L1_PAGE_SIZE, false).unwrap();

    checked_dealloc(&mut manager, va3, layout);
    checked_dealloc(&mut manager, va4, layout);
    assert!(manager.is_empty());

    allocate_checked(&mut manager, L2_PAGE_SIZE, L2_PAGE_SIZE, true);
    let (va5, layout) = allocate_checked(&mut manager, L2_PAGE_SIZE, L2_PAGE_SIZE, false).unwrap();
    let (va6, _) = allocate_checked(&mut manager, L2_PAGE_SIZE, L2_PAGE_SIZE, false).unwrap();

    checked_dealloc(&mut manager, va5, layout);
    checked_dealloc(&mut manager, va6, layout);
    assert!(manager.is_empty());

    let (va7, layout) = allocate_checked(&mut manager, L2_PAGE_SIZE, L2_PAGE_SIZE, false).unwrap();
    let (va8, _) = allocate_checked(&mut manager, L2_PAGE_SIZE, L2_PAGE_SIZE, false).unwrap();

    checked_dealloc(&mut manager, va8, layout);
    checked_dealloc(&mut manager, va7, layout);
    assert!(manager.is_empty());
}

#[test]
fn vmm_allocations_do_not_overlap() {
    let mut manager = VirtualMemoryManager::init(
        vec![0u64; 4],
        MemoryRange::new_len(VirtAddr::new(0x4000_0000), 256 * 0x1000),
    );
    let layout = Layout::from_size_align(0x3000, 0x1000).unwrap();
    let a = manager.allocate(layout).unwrap();
    let b = manager.allocate(layout).unwrap();
    assert_eq!(a.as_u64(), 0x4000_0000);
    assert!(b.as_u64() >= a.as_u64() + 0x3000);
    manager.deallocate(a, layout);
    assert!(!manager.is_allocated(a, 0x3000));
    assert!(manager.is_allocated(b, 0x3000));
}

#[test]
fn vmm_out_of_space_and_reset() {
    let mut manager = VirtualMemoryManager::init(
        vec![0u64; 1],
        MemoryRange::new_len(VirtAddr::new(0x10_0000), 4 * 0x1000),
    );
    let layout = Layout::from_size_align(0x1000, 0x1000).unwrap();
    for _ in 0..4 {
        assert!(manager.allocate(layout).is_some());
    }
    assert_eq!(manager.allocate(layout), None);
    manager.reset();
    assert!(manager.is_empty());
    assert_eq!(manager.allocate(layout), Some(VirtAddr::new(0x10_0000)));
}

#[test]
fn vmm_mark_allocated_and_unallocated() {
    let mut manager = VirtualMemoryManager::init(
        vec![0u64; 1],
        MemoryRange::new_len(VirtAddr::new(0x10_0000), 8 * 0x1000),
    );
    manager.mark_allocated(VirtAddr::new(0x10_0000), 0x2000);
    let layout = Layout::from_size_align(0x1000, 0x1000).unwrap();
    assert_eq!(manager.allocate(layout), Some(VirtAddr::new(0x10_2000)));
    manager.mark_unallocated(VirtAddr::new(0x10_0000), 0x1000);
    assert!(!manager.is_allocated(VirtAddr::new(0x10_0000), 0x1000));
    assert!(manager.is_allocated(VirtAddr::new(0x10_1000), 0x1000));
}

#[test]
fn bit_index_helpers() {
    let base = PhysAddr::new(0x20_0000);
    assert_eq!(bit_index_as_address(3, base), PhysAddr::new(0x20_3000));
    let p = address_as_bit_index(PhysAddr::new(0x20_3000), base).unwrap();
    assert_eq!(p.bit_index(), 3);
    assert!(address_as_bit_index(PhysAddr::new(0x1F_F000), base).is_none());
    assert!(address_as_bit_index(PhysAddr::new(0x20_0800), base).is_none());
    let far = address_as_bit_index(PhysAddr::new(0x20_0000 + 70 * 0x1000), base).unwrap();
    assert_eq!(far.entry_index(), 1);
    assert_eq!(far.bit_offset(), 6);
}

#[test]
fn align_in_bits_values() {
    assert_eq!(align_in_bits(Alignment::new(0x1000).unwrap()).as_u64(), 1);
    assert_eq!(align_in_bits(Alignment::new(0x20_0000).unwrap()).as_u64(), 512);
    assert_eq!(align_in_bits(Alignment::new(8).unwrap()).as_u64(), 1);
}

fn two_region_pmm() -> PhysicalMemoryManager {
    // A large region at 2 MiB (aligned to 2 MiB), and a small one at 4 KiB.
    let large = BitmapEntry::new(
        MemoryRange::new_len(PhysAddr::new(0x20_0000), 0x40_0000),
        vec![0u64; 16],
    );
    let small = BitmapEntry::new(MemoryRange::new_len(PhysAddr::new(0x1000), 0x8000), vec![0u64; 1]);
    PhysicalMemoryManager::new(vec![large, small])
}

#[test]
fn pmm_orders_regions_by_free_frames() {
    let pmm = two_region_pmm();
    assert_eq!(pmm.len(), 2);
    assert_eq!(pmm.region_start(0), 0x1000);
    assert_eq!(pmm.region_free(0), 8);
    assert_eq!(pmm.region_start(1), 0x20_0000);
    assert_eq!(pmm.region_free(1), 1024);
}

#[test]
fn pmm_allocates_by_size_and_alignment() {
    let mut pmm = two_region_pmm();
    let a: Frame<Small> = pmm.allocate_fragment().unwrap();
    let b: Frame<Small> = pmm.allocate_fragment().unwrap();
    assert_eq!(a.start_address().as_u64(), 0x1000);
    assert_eq!(b.start_address().as_u64(), 0x2000);
    assert_eq!(pmm.region_free(0), 6);

    // Only the region aligned to 2 MiB serves medium frames.
    let m1: Frame<Medium> = pmm.allocate_fragment().unwrap();
    let m2: Frame<Medium> = pmm.allocate_fragment().unwrap();
    assert_eq!(m1.start_address().as_u64(), 0x20_0000);
    assert_eq!(m2.start_address().as_u64(), 0x40_0000);
    assert_eq!(pmm.region_free(1), 0);
    assert_eq!(pmm.allocate_fragment::<Medium>(), Err(MemError::OutOfMemory));

    pmm.deallocate_fragment(m1);
    assert_eq!(pmm.region_free(1), 512);
    let again: Frame<Medium> = pmm.allocate_fragment().unwrap();
    assert_eq!(again.start_address().as_u64(), 0x20_0000);

    pmm.deallocate_fragment(a);
    assert_eq!(pmm.region_free(0), 7);
    let a2: Frame<Small> = pmm.allocate_fragment().unwrap();
    assert_eq!(a2.start_address().as_u64(), 0x1000);
}

#[test]
fn pmm_marks_ranges() {
    let mut pmm = two_region_pmm();
    let used = MemoryRange::new_len(PhysAddr::new(0x1000), 0x2000);
    assert_eq!(pmm.bitmap_for_range(used), Some(0));
    assert_eq!(pmm.bitmap_for_range(MemoryRange::new_len(PhysAddr::new(0x9000), 0x1000)), None);
    pmm.mark_allocated(used);
    assert_eq!(pmm.region_free(0), 6);
    let f: Frame<Small> = pmm.allocate_fragment().unwrap();
    assert_eq!(f.start_address().as_u64(), 0x3000);
    pmm.mark_unallocated(used);
    assert_eq!(pmm.region_free(0), 7);
    let g: Frame<Small> = pmm.allocate_fragment().unwrap();
    assert_eq!(g.start_address().as_u64(), 0x1000);
    assert_eq!(pmm.bitmap_containing(g), Some(0));
}

#[test]
fn alignment_of_addresses() {
    assert_eq!(alignment_of(PhysAddr::new(0x20_0000)).as_u64(), 0x20_0000);
    assert_eq!(alignment_of(PhysAddr::new(0x3000)).as_u64(), 0x1000);
    assert_eq!(alignment_of(PhysAddr::new(0x1001)).as_u64(), 1);
    assert_eq!(alignment_of(PhysAddr::new(0)).as_u64(), 1u64 << 63);
}

#[test]
fn pmm_moves_to_next_region_when_first_is_full() {
    let mut pmm = two_region_pmm();
    for k in 0..8u64 {
        let f: Frame<Small> = pmm.allocate_fragment().unwrap();
        assert_eq!(f.start_address().as_u64(), 0x1000 + k * 0x1000);
    }
    assert_eq!(pmm.region_free(0), 0);
    // The first region is no longer eligible, so the next one serves the request.
    let next: Frame<Small> = pmm.allocate_fragment().unwrap();
    assert_eq!(next.start_address().as_u64(), 0x20_0000);
    assert_eq!(pmm.region_free(1), 1023);
}
