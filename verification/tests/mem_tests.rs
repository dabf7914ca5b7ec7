use nmm::addr::{PhysAddr, VirtAddr};
use nmm::index::PageTableIndex;
use nmm::mem::{
    check_range_phys, check_range_virt, create_page_layout, scratch_space_layout,
    AddressSpaceState, HeaplessAllocator, InvalidRangeReason, Layout, MapFlags, MemError,
    PageTableFlags, RecursiveEntryManager,
};
use nmm::primitives::{Frame, Small};
use nmm::table::{PageTable, PageTableEntry};
use nmm::kernel_map::{KernelMap, SectionDecl};

#[test]
fn map_flags_describe() {
    assert_eq!(MapFlags::empty().describe(), "R KS NX C");
    let all = MapFlags::writable()
        .union(MapFlags::user_accessible())
        .union(MapFlags::executable())
        .union(MapFlags::cache_disable());
    assert_eq!(all.describe(), "W US X NC");
    assert_eq!(MapFlags::writable().describe(), "W KS NX C");
    assert!(all.contains(MapFlags::executable()));
    assert!(!MapFlags::writable().contains(MapFlags::executable()));
    assert_eq!(MapFlags::from_bits_truncate(0xFFFF).bits(), 0x1E);
}

#[test]
fn flags_convert_both_ways() {
    let map = MapFlags::writable().union(MapFlags::user_accessible());
    let table = PageTableFlags::from(map);
    assert!(table.contains(PageTableFlags::WRITABLE));
    assert!(table.contains(PageTableFlags::USER_ACCESSIBLE));
    // Not executable: the no-execute bit is set.
    assert!(table.contains(PageTableFlags::NO_EXECUTE));
    assert_eq!(MapFlags::from(table), map);
    let exec = MapFlags::executable().union(MapFlags::cache_disable());
    assert_eq!(MapFlags::from(PageTableFlags::from(exec)), exec);
}

#[test]
fn range_checks() {
    assert_eq!(check_range_virt(VirtAddr::new(0x1000), 0x1000), Ok(()));
    assert_eq!(
        check_range_virt(VirtAddr::new(0x7FFF_FFFF_F000), 0x2000),
        Err(MemError::InvalidVirtRange {
            reason: InvalidRangeReason::Overflow,
            begin: VirtAddr::new(0x7FFF_FFFF_F000),
            size: 0x2000,
        })
    );
    assert_eq!(check_range_phys(PhysAddr::new(0x1000), 0x1000), Ok(()));
    assert!(check_range_phys(PhysAddr::new(0xF_FFFF_FFFF_F000), 0x2000).is_err());
}

#[test]
fn layouts() {
    assert!(Layout::from_size_align(10, 3).is_none());
    let l = Layout::from_size_align(10, 8).unwrap();
    assert_eq!(l.size(), 10);
    assert_eq!(l.align(), 8);
    assert_eq!(l.alignment().as_u64(), 8);
    let p = create_page_layout(l);
    assert_eq!(p.size(), 0x1000);
    assert_eq!(p.align(), 0x1000);
    let big = create_page_layout(Layout::from_size_align(0x1001, 0x20_0000).unwrap());
    assert_eq!(big.size(), 0x2000);
    assert_eq!(big.align(), 0x20_0000);
}

#[test]
fn scratch_space() {
    assert_eq!(
        scratch_space_layout(0x1000),
        Err(MemError::ScratchSpaceTooSmall { provided: 0x1000, required: 0x10000 })
    );
    // 8 GiB managed: 2M pages, a 256 KiB bitmap of 32768 entries.
    assert_eq!(scratch_space_layout(8 << 30), Ok((0x20_0000, 0x4_0000, 0x8000)));
    assert_eq!(scratch_space_layout(0x10000), Ok((16, 8, 1)));
}

#[test]
fn address_space_state_modes() {
    let mut st = AddressSpaceState::new();
    assert!(!st.is_hhdm());
    assert!(!st.is_recursive());
    assert_eq!(st.hhdm_offset(), None);
    st.cfg_hhdm(VirtAddr::new(0xFFFF_8000_0000_0000));
    assert!(st.is_hhdm());
    assert_eq!(st.hhdm_offset(), Some(VirtAddr::new(0xFFFF_8000_0000_0000)));
    st.set_recursive(PageTableIndex::new(510));
    assert!(st.is_recursive());
    assert_eq!(st.recursive_index(), Some(PageTableIndex::new(510)));
}

#[test]
fn recursive_slots_reserve_and_release() {
    let mut m = RecursiveEntryManager::new(PageTableIndex::new(500), 3);
    assert_eq!(m.reserve(), Some(PageTableIndex::new(500)));
    assert_eq!(m.reserve(), Some(PageTableIndex::new(501)));
    assert_eq!(m.reserve(), Some(PageTableIndex::new(502)));
    assert_eq!(m.reserve(), None);
    m.release(PageTableIndex::new(501));
    assert_eq!(m.reserve(), Some(PageTableIndex::new(501)));
}

#[test]
fn heapless_allocator_flags() {
    let a = HeaplessAllocator::new(MapFlags::writable());
    assert_eq!(a.flags(), MapFlags::writable());
}

#[test]
fn page_table_entries() {
    let frame: Frame<Small> = Frame::new(PhysAddr::new(0x5000));
    let mut e = PageTableEntry::new(frame, PageTableFlags::from_bits_truncate(PageTableFlags::PRESENT));
    assert_eq!(e.addr().as_u64() & !0xFFF, 0x5000);
    assert!(e.arch_flags().contains(PageTableFlags::PRESENT));
    e.set_flags(MapFlags::writable());
    assert!(e.flags().contains(MapFlags::writable()));
    let t = PageTable::new();
    assert!(t.entries().iter().all(|x| x.addr().as_u64() == 0));
    let mut t2 = PageTable::new();
    t2.clear();
    assert_eq!(t2.entries().len(), 512);
}

#[test]
fn kernel_map_layout() {
    let map = nmm::kernel_map::kernel_map().unwrap();
    let got: Vec<(&str, u64, u64)> =
        map.sections.iter().map(|s| (s.name, s.start.as_u64(), s.size)).collect();
    assert_eq!(
        got,
        vec![
            ("NMM_MANAGED_RANGE", 0xFFFF_8080_0000_0000, 0x2_0000_0000),
            // The cursor after an aligned section moves past its end by its count once more,
            // which pushes the next start to the following alignment boundary.
            ("KERNEL_HEAP", 0xFFFF_8082_0020_0000, 0x100_0000),
            ("KERNEL_PHYS_MAP", 0xFFFF_8082_0140_0000, 0x1000_0000),
            ("KERNEL_REMAP", 0xFFFF_8082_1160_0000, 0x1000_0000),
            ("FRAMEBUFFER", 0xFFFF_8082_2180_0000, 0x20_0000),
            ("ADDRESS_SPACE_INFO", 0xFFFF_8082_21A0_1000, 0x1000),
        ]
    );
}

#[test]
fn kernel_map_unaligned_and_overflowing_sections() {
    let decls = vec![
        SectionDecl { name: "A", count: 2, unit: 0x1000, align_log2: None },
        SectionDecl { name: "B", count: 1, unit: 0x1000, align_log2: None },
    ];
    let m = KernelMap::layout(VirtAddr::new(0x1000), &decls).unwrap();
    // An unaligned section's size is its count; the cursor still moves by the bytes.
    assert_eq!(m.sections[0].start.as_u64(), 0x1000);
    assert_eq!(m.sections[0].size, 2);
    assert_eq!(m.sections[1].start.as_u64(), 0x3000);
    let too_big = vec![SectionDecl { name: "X", count: 1, unit: 0x8000_0000_0000, align_log2: Some(12) }];
    assert!(KernelMap::layout(VirtAddr::new(0x1000), &too_big).is_none());
}

#[test]
fn entry_address_and_flag_replacement() {
    let frame: Frame<Small> = Frame::new(PhysAddr::new(0x1000));
    let mut e = PageTableEntry::new(
        frame,
        PageTableFlags::from_bits_truncate(PageTableFlags::PRESENT | PageTableFlags::WRITABLE),
    );
    assert_eq!(e.addr(), PhysAddr::new(0x1000));
    e.set_flags(MapFlags::empty());
    assert_eq!(e.flags(), MapFlags::empty());
    assert!(!e.arch_flags().contains(PageTableFlags::WRITABLE));
    assert_eq!(e.addr(), PhysAddr::new(0x1000));
}
