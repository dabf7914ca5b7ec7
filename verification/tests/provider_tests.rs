use nmm::addr::PhysAddr;
use nmm::managers::{BitmapEntry, PhysicalMemoryManager};
use nmm::mem::MemError;
use nmm::primitives::{Frame, Medium, MemoryRange, Small};
use nmm::provider::{DataAllocator, DataWithTableAllocator, MemoryProvider, PhysLinear};

fn small_pmm(base: u64) -> PhysicalMemoryManager {
    let region = BitmapEntry::new(MemoryRange::new_len(PhysAddr::new(base), 0x8000), vec![0u64; 1]);
    PhysicalMemoryManager::new(vec![region])
}

#[test]
fn phys_linear_hands_out_consecutive_frames() {
    let mut tables = small_pmm(0x1000);
    let mut p = PhysLinear::new(PhysAddr::new(0x40_0000), &mut tables);
    let a: Frame<Small> = MemoryProvider::<Small>::allocate_data(&mut p).unwrap();
    let b: Frame<Small> = MemoryProvider::<Small>::allocate_data(&mut p).unwrap();
    assert_eq!(a.start_address().as_u64(), 0x40_0000);
    assert_eq!(b.start_address().as_u64(), 0x40_1000);
    assert_eq!(p.0.as_u64(), 0x40_2000);
    // The base no longer starts a medium frame.
    let m = MemoryProvider::<Medium>::allocate_data(&mut p);
    assert_eq!(m, Err(MemError::InvalidFrameAddress(PhysAddr::new(0x40_2000))));
    assert_eq!(p.0.as_u64(), 0x40_2000);
}

#[test]
fn phys_linear_takes_tables_from_its_manager() {
    let mut tables = small_pmm(0x1000);
    {
        let mut p = PhysLinear::new(PhysAddr::new(0x40_0000), &mut tables);
        let t = MemoryProvider::<Small>::allocate_table(&mut p).unwrap();
        assert_eq!(t.start_address().as_u64(), 0x1000);
        assert_eq!(p.0.as_u64(), 0x40_0000);
    }
    assert_eq!(tables.region_free(0), 7);
}

#[test]
fn data_allocator_uses_one_manager() {
    let mut pmm = small_pmm(0x1000);
    {
        let mut p = DataAllocator(&mut pmm);
        let d: Frame<Small> = MemoryProvider::<Small>::allocate_data(&mut p).unwrap();
        let t = MemoryProvider::<Small>::allocate_table(&mut p).unwrap();
        assert_eq!(d.start_address().as_u64(), 0x1000);
        assert_eq!(t.start_address().as_u64(), 0x2000);
        // The small region cannot serve a medium frame.
        assert_eq!(MemoryProvider::<Medium>::allocate_data(&mut p), Err(MemError::OutOfMemory));
    }
    assert_eq!(pmm.region_free(0), 6);
}

#[test]
fn data_with_table_allocator_uses_two_managers() {
    let mut p = DataWithTableAllocator(small_pmm(0x1000), small_pmm(0x10_0000));
    let d: Frame<Small> = MemoryProvider::<Small>::allocate_data(&mut p).unwrap();
    let t = MemoryProvider::<Small>::allocate_table(&mut p).unwrap();
    assert_eq!(d.start_address().as_u64(), 0x1000);
    assert_eq!(t.start_address().as_u64(), 0x10_0000);
    assert_eq!(p.0.region_free(0), 7);
    assert_eq!(p.1.region_free(0), 7);
}
