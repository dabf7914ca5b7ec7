use nmm::addr::PhysAddr;
use nmm::arch::{L1_PAGE_SIZE, L2_PAGE_SIZE, L3_PAGE_SIZE};
use nmm::mem::MemError;
use nmm::primitives::{FragmentSize, Frame, Large, Medium, Small};
use nmm::walker::{entry_type_name, EntryType, EntryWalker, LimineEntry, MemoryRegion};

fn check_alignment<S: FragmentSize>(base: u64, length: u64, expected: Option<(u64, u64)>) {
    let region = MemoryRegion { base, length };
    let result = region.align_for_with_offset::<S>();
    match (result, expected) {
        (Some((aligned, offset)), Some((expected_aligned, expected_offset))) => {
            assert_eq!(aligned.as_u64(), expected_aligned);
            assert_eq!(offset, expected_offset);
        }
        (None, None) => {}
        _ => panic!(
            "Expected {:?} but got {:?} for base: {:#x}, length: {:#x}",
            expected, result, base, length
        ),
    }
}

fn create_entries(entries: &[(u64, u64, EntryType)]) -> Vec<LimineEntry> {
    entries
        .iter()
        .map(|&(base, length, entry_type)| LimineEntry { base, length, entry_type })
        .collect()
}

#[test]
fn test_region_alignment() {
    check_alignment::<Small>(L1_PAGE_SIZE, L1_PAGE_SIZE, Some((L1_PAGE_SIZE, 0)));
    check_alignment::<Small>(
        L1_PAGE_SIZE + 1,
        L1_PAGE_SIZE * 2,
        Some((L1_PAGE_SIZE * 2, L1_PAGE_SIZE - 1)),
    );
    check_alignment::<Small>(L1_PAGE_SIZE, L1_PAGE_SIZE - 1, None);
    check_alignment::<Medium>(L2_PAGE_SIZE, L2_PAGE_SIZE, Some((L2_PAGE_SIZE, 0)));
    check_alignment::<Medium>(
        L2_PAGE_SIZE + 1,
        L2_PAGE_SIZE * 2,
        Some((L2_PAGE_SIZE * 2, L2_PAGE_SIZE - 1)),
    );
    check_alignment::<Medium>(L2_PAGE_SIZE + 1, L2_PAGE_SIZE, None);
    check_alignment::<Large>(L3_PAGE_SIZE, L3_PAGE_SIZE, Some((L3_PAGE_SIZE, 0)));
    check_alignment::<Large>(
        L3_PAGE_SIZE + 1,
        L3_PAGE_SIZE * 2,
        Some((L3_PAGE_SIZE * 2, L3_PAGE_SIZE - 1)),
    );
    check_alignment::<Large>(L3_PAGE_SIZE + 1, L3_PAGE_SIZE, None);
}

#[test]
fn test_walker_usable_memory() {
    let entries = create_entries(&[
        (0x1000, 0x1000, EntryType::USABLE),
        (0x2000, 0x1000, EntryType::RESERVED),
        (0x3000, 0x1000, EntryType::USABLE),
        (0x4000, 0x1000, EntryType::ACPI_RECLAIMABLE),
        (0x5000, 0x1000, EntryType::BOOTLOADER_RECLAIMABLE),
        (0x6000, 0x1000, EntryType::KERNEL_AND_MODULES),
    ]);
    let refs: Vec<&LimineEntry> = entries.iter().collect();
    let walker = EntryWalker::from_limine_entries(&refs).unwrap();
    assert_eq!(walker.usable_memory(), 0x4000);
}

#[test]
fn test_walker_allocate_basic_oom() {
    let entries = create_entries(&[
        (0x1000, 0x1000, EntryType::USABLE),
        (0x2000, 0x1000, EntryType::RESERVED),
        (0x3000, 0x1000, EntryType::USABLE),
    ]);
    let refs: Vec<&LimineEntry> = entries.iter().collect();
    let mut walker = EntryWalker::from_limine_entries(&refs).unwrap();

    let frame1: Frame<Small> = walker.allocate_for().unwrap();
    assert_eq!(frame1.start_address().as_u64(), 0x1000);

    let frame2: Frame<Small> = walker.allocate_for().unwrap();
    assert_eq!(frame2.start_address().as_u64(), 0x3000);

    assert_eq!(walker.allocate_for::<Small>(), Err(MemError::OutOfMemory));
}

#[test]
fn test_walker_allocate_higher_alignment() {
    let entries = create_entries(&[
        (0x1000, 0x3000, EntryType::USABLE),
        (L2_PAGE_SIZE, L2_PAGE_SIZE, EntryType::USABLE),
        (L2_PAGE_SIZE * 2 + 0x2000, 0x1000, EntryType::USABLE),
    ]);
    let refs: Vec<&LimineEntry> = entries.iter().collect();
    let mut walker = EntryWalker::from_limine_entries(&refs).unwrap();

    let frame1: Frame<Small> = walker.allocate_for().unwrap();
    assert_eq!(frame1.start_address().as_u64(), 0x1000);

    let frame2: Frame<Medium> = walker.allocate_for().unwrap();
    assert_eq!(frame2.start_address().as_u64(), L2_PAGE_SIZE);

    let frame3: Frame<Small> = walker.allocate_for().unwrap();
    assert_eq!(frame3.start_address().as_u64(), 0x2000);

    let frame4: Frame<Small> = walker.allocate_for().unwrap();
    assert_eq!(frame4.start_address().as_u64(), 0x3000);

    let frame5: Frame<Small> = walker.allocate_for().unwrap();
    assert_eq!(frame5.start_address().as_u64(), L2_PAGE_SIZE * 2 + 0x2000);

    assert_eq!(walker.allocate_for::<Medium>(), Err(MemError::OutOfMemory));
}

#[test]
fn test_walker_used_regions() {
    let entries = create_entries(&[
        (0x1000, 0x1000, EntryType::USABLE),
        (0x2000, 0x1000, EntryType::RESERVED),
        (0x3000, 0x2000, EntryType::USABLE),
        (0x5000, 0x1000, EntryType::ACPI_RECLAIMABLE),
    ]);
    let refs: Vec<&LimineEntry> = entries.iter().collect();
    let mut walker = EntryWalker::from_limine_entries(&refs).unwrap();
    assert_eq!(walker.allocate_for::<Small>(), Ok(Frame::new(PhysAddr::new(0x1000))));
    assert_eq!(walker.allocate_for::<Small>(), Ok(Frame::new(PhysAddr::new(0x3000))));

    let used_regions: Vec<MemoryRegion> = walker.used_regions();
    println!("Used regions: {:?}", used_regions);
    assert_eq!(used_regions.len(), 2);
    assert!(used_regions.contains(&MemoryRegion { base: 0x1000, length: 0x1000 }));
    assert!(used_regions.contains(&MemoryRegion { base: 0x3000, length: 0x1000 }));
}

#[test]
fn walker_without_usable_entry_is_out_of_memory() {
    let entries = create_entries(&[
        (0x1000, 0x1000, EntryType::RESERVED),
        (0x2000, 0x1000, EntryType::BAD_MEMORY),
    ]);
    let refs: Vec<&LimineEntry> = entries.iter().collect();
    assert!(matches!(EntryWalker::from_limine_entries(&refs), Err(MemError::OutOfMemory)));
}

#[test]
fn walker_frames_never_overlap() {
    let entries = create_entries(&[
        (0x1800, 0x5000, EntryType::USABLE),
        (0x10000, 0x3000, EntryType::USABLE),
    ]);
    let refs: Vec<&LimineEntry> = entries.iter().collect();
    let mut walker = EntryWalker::from_limine_entries(&refs).unwrap();
    let mut seen: Vec<u64> = Vec::new();
    while let Ok(frame) = walker.allocate_for::<Small>() {
        let a = frame.start_address().as_u64();
        assert_eq!(a % 0x1000, 0);
        assert!(!seen.contains(&a));
        let inside_first = a >= 0x1800 && a + 0x1000 <= 0x6800;
        let inside_second = a >= 0x10000 && a + 0x1000 <= 0x13000;
        assert!(inside_first || inside_second);
        seen.push(a);
    }
    assert_eq!(seen, vec![0x2000, 0x3000, 0x4000, 0x5000, 0x10000, 0x11000, 0x12000]);
}

#[test]
fn walker_serves_leftover_fragments_first() {
    // The first region is too small for a medium frame, so the walk moves on and keeps it as
    // a leftover, from which the next small frame comes.
    let entries = create_entries(&[
        (0x1000, 0x2000, EntryType::USABLE),
        (L2_PAGE_SIZE, L2_PAGE_SIZE * 2, EntryType::USABLE),
    ]);
    let refs: Vec<&LimineEntry> = entries.iter().collect();
    let mut walker = EntryWalker::from_limine_entries(&refs).unwrap();
    let medium: Frame<Medium> = walker.allocate_for().unwrap();
    assert_eq!(medium.start_address().as_u64(), L2_PAGE_SIZE);
    let small: Frame<Small> = walker.allocate_for().unwrap();
    assert_eq!(small.start_address().as_u64(), 0x1000);
    let used = walker.used_regions();
    assert_eq!(used, vec![
        MemoryRegion { base: L2_PAGE_SIZE, length: L2_PAGE_SIZE },
        MemoryRegion { base: 0x1000, length: 0x2000 },
    ]);
}

#[test]
fn walker_deallocate_changes_nothing() {
    let entries = create_entries(&[(0x1000, 0x2000, EntryType::USABLE)]);
    let refs: Vec<&LimineEntry> = entries.iter().collect();
    let mut walker = EntryWalker::from_limine_entries(&refs).unwrap();
    let frame: Frame<Small> = walker.allocate_for().unwrap();
    walker.deallocate_fragment(frame);
    let next: Frame<Small> = walker.allocate_for().unwrap();
    assert_eq!(next.start_address().as_u64(), 0x2000);
}

#[test]
fn entry_type_names() {
    assert_eq!(entry_type_name(EntryType::USABLE), "usable");
    assert_eq!(entry_type_name(EntryType::KERNEL_AND_MODULES), "executable_and_modules");
    assert_eq!(entry_type_name(EntryType::FRAMEBUFFER), "framebuffer");
    assert_eq!(entry_type_name(EntryType::Unknown(42)), "unknown");
}

#[test]
fn memory_region_from_entry_and_range() {
    let entry = LimineEntry { base: 0x4000, length: 0x3000, entry_type: EntryType::USABLE };
    let region = MemoryRegion::from(entry);
    assert_eq!(region, MemoryRegion { base: 0x4000, length: 0x3000 });
    let range = region.to_range();
    assert_eq!(range.start().as_u64(), 0x4000);
    assert_eq!(range.end().as_u64(), 0x7000);
}
