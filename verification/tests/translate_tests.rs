use nmm::addr::{PhysAddr, VirtAddr};
use nmm::mem::{MapFlags, MemError, PageTableFlags};
use nmm::primitives::{DirectMapping, Frame, Large, Medium, Page, Small};
use nmm::table::PageTableEntry;
use nmm::primitives::AnyFragment;
use nmm::translate::{copy_step, free_parent_step, translate_entries, TranslateResult};

fn flags(bits: u64) -> PageTableFlags {
    PageTableFlags::from_bits_truncate(bits)
}

const P: u64 = PageTableFlags::PRESENT;
const W: u64 = PageTableFlags::WRITABLE;
const H: u64 = PageTableFlags::HUGE_PAGE;
// Entries without the no-execute bit map executable memory.

#[test]
fn translate_not_present_first_entry() {
    let addr = VirtAddr::new(0x4000_1234);
    assert_eq!(translate_entries(addr, PageTableEntry::empty(), None, None), TranslateResult::NotMapped);
}

#[test]
fn translate_huge_level3_entry() {
    let frame: Frame<Large> = Frame::new(PhysAddr::new(0x8000_0000));
    let l3 = PageTableEntry::new(frame, flags(P | W | H));
    let r = translate_entries(VirtAddr::new(0x4012_3456), l3, None, None);
    let page: Page<Large> = Page::new(VirtAddr::new(0x4000_0000));
    assert_eq!(r, TranslateResult::Success(DirectMapping::Large(page, frame), MapFlags::writable().union(MapFlags::executable())));
}

#[test]
fn translate_huge_level2_entry() {
    let l3 = PageTableEntry::new(Frame::<Small>::new(PhysAddr::new(0x3000)), flags(P | W));
    let frame: Frame<Medium> = Frame::new(PhysAddr::new(0x60_0000));
    let l2 = PageTableEntry::new(frame, flags(P | H));
    let r = translate_entries(VirtAddr::new(0x4032_1000), l3, Some(l2), None);
    let page: Page<Medium> = Page::new(VirtAddr::new(0x4020_0000));
    assert_eq!(r, TranslateResult::Success(DirectMapping::Medium(page, frame), MapFlags::executable()));
}

#[test]
fn translate_small_page_and_invalid_level1() {
    let l3 = PageTableEntry::new(Frame::<Small>::new(PhysAddr::new(0x3000)), flags(P | W));
    let l2 = PageTableEntry::new(Frame::<Small>::new(PhysAddr::new(0x4000)), flags(P | W));
    let frame: Frame<Small> = Frame::new(PhysAddr::new(0x9000));
    let l1 = PageTableEntry::new(frame, flags(P | W));
    let addr = VirtAddr::new(0x4000_5123);
    let page: Page<Small> = Page::new(VirtAddr::new(0x4000_5000));
    assert_eq!(
        translate_entries(addr, l3, Some(l2), Some(l1)),
        TranslateResult::Success(DirectMapping::Small(page, frame), MapFlags::writable().union(MapFlags::executable()))
    );
    assert_eq!(
        translate_entries(addr, l3, Some(l2), Some(PageTableEntry::empty())),
        TranslateResult::NotMapped
    );
    let bad = PageTableEntry::new(frame, flags(P | H));
    assert_eq!(
        translate_entries(addr, l3, Some(l2), Some(bad)),
        TranslateResult::Error(MemError::InvalidOperation)
    );
    assert_eq!(TranslateResult::from(MemError::OutOfMemory), TranslateResult::Error(MemError::OutOfMemory));
}

#[test]
fn free_parents_stop_at_used_tables_and_below_level4() {
    let parent = PageTableEntry::new(Frame::<Small>::new(PhysAddr::new(0x7000)), flags(P | W));
    assert_eq!(free_parent_step(1, false, parent), Some(Frame::<Small>::new(PhysAddr::new(0x7000))));
    assert_eq!(free_parent_step(2, false, parent), Some(Frame::<Small>::new(PhysAddr::new(0x7000))));
    assert_eq!(free_parent_step(1, true, parent), None);
    assert_eq!(free_parent_step(3, false, parent), None);
}

#[test]
fn copy_step_outcomes() {
    let first: Page<Small> = Page::new(VirtAddr::new(0x10_0000));
    let page: Page<Small> = Page::new(VirtAddr::new(0x10_1000));
    let frame: Frame<Small> = Frame::new(PhysAddr::new(0x5000));
    let m = DirectMapping::Small(page, frame);
    let ok = copy_step(first, VirtAddr::new(0x10_1000), TranslateResult::Success(m, MapFlags::writable()));
    assert_eq!(ok, Ok((m, MapFlags::writable())));
    let wrong = copy_step(first, VirtAddr::new(0x10_2000), TranslateResult::Success(m, MapFlags::writable()));
    assert_eq!(wrong, Err(MemError::InvalidOperation));
    assert_eq!(
        copy_step(first, VirtAddr::new(0x10_1000), TranslateResult::NotMapped),
        Err(MemError::NotMapped(AnyFragment::Small(first)))
    );
    assert_eq!(
        copy_step(first, VirtAddr::new(0x10_1000), TranslateResult::Error(MemError::OutOfMemory)),
        Err(MemError::OutOfMemory)
    );
}
