use nmm::addr::VirtAddr;
use nmm::align::Alignment;
use nmm::alloc_state::{bytes_to_pages, range_mask, rep_mask, AllocationStateMachine, ScanState, SkipStrategy};
use nmm::bitmap::Bitmap;
use nmm::bitptr::BitPtr;

const TABLE_SIZE: u64 = 4096;
const MEDIUM: u64 = 0x20_0000;

fn bitmap_of(entries: usize, n_bits: u64) -> Bitmap {
    Bitmap::init(vec![0u64; entries], n_bits, 0)
}

fn rest_all(bitmap: &Bitmap, from: usize, value: u64) -> bool {
    bitmap.entries_slice()[from..].iter().all(|&x| x == value)
}

#[test]
fn test_bits_are_set() {
    let mut bitmap = bitmap_of(64, 64 * 64);
    bitmap.set(BitPtr::zero(), 512);
    for i in 0..512 {
        assert!(bitmap.bits_are_set(BitPtr::new_wrapping(0, i), 512), "bits_are_set({}, 512)", i);
    }
    for i in 512..1025 {
        if BitPtr::new_wrapping(0, i).bit_index() + 512 <= 64 * 64 {
            assert!(!bitmap.bits_are_set(BitPtr::new_wrapping(0, i), 512), "bits_are_set({}, 512)", i);
        }
    }
    bitmap.reset();

    bitmap.set(BitPtr::new(1, 0), 64);
    assert!(bitmap.bits_are_set(BitPtr::new(0, 0), 512));
    bitmap.reset();

    bitmap.set(BitPtr::new(0, 2), 2);
    assert!(bitmap.bits_are_set(BitPtr::new(0, 1), 512));
    assert!(!bitmap.bits_are_set(BitPtr::new(0, 1), 1));
    assert!(bitmap.bits_are_set(BitPtr::new(0, 1), 2));
    assert!(!bitmap.bits_are_set(BitPtr::new(0, 0), 1));
}

#[test]
fn test_allocate() {
    const CAP: usize = 0x200000 * 2;
    let mut bitmap = bitmap_of(CAP, 64 * CAP as u64);
    let mut alloc = |n_bits: u64, align: usize| {
        let res = bitmap.allocate(n_bits, Alignment::new(align).expect("provided align not power of two!"));
        assert!(res.is_some(), "allocate({}, {}) should return Some(BitPtr), got None", n_bits, align);
        res.unwrap()
    };
    assert_eq!(alloc(1, 1), BitPtr::new(0, 0));
    assert_eq!(alloc(1, 1), BitPtr::new(0, 1));
    assert_eq!(alloc(2, 2), BitPtr::new(0, 2));
    assert_eq!(alloc(3, 8), BitPtr::new(0, 8));
    assert_eq!(alloc(8, 8), BitPtr::new(0, 16));
    assert_eq!(alloc(8, 32), BitPtr::new(0, 32));
    assert_eq!(alloc(128, 128), BitPtr::new(2, 0));
    assert_eq!(alloc(MEDIUM, MEDIUM as usize), BitPtr::new(MEDIUM / 64, 0));
    assert_eq!(alloc(34, 512), BitPtr::new(512 / 64, 0));
}

#[test]
fn test_get_vec() {
    let data: Vec<u64> = (0..64).collect();
    let bitmap = Bitmap::init(data, 64 * 64, 0);
    assert_eq!(bitmap.get_vec(0), [0, 1, 2, 3]);
    assert_eq!(bitmap.get_vec(1), [1, 2, 3, 4]);
}

#[test]
fn test_set_vec() {
    let mut bitmap = bitmap_of(64, 64 * 64);
    let val = [u64::MAX; 4];
    bitmap.set_vec(0, val);
    assert_eq!(bitmap.get_vec(0), val);
}

#[test]
fn test_vec_chunks() {
    let data: Vec<u64> = (0..64).collect();
    let bitmap = Bitmap::init(data, 64 * 64, 0);
    let chunks = bitmap.vec_chunks();
    for (c, i) in (0..64u64).step_by(4).enumerate() {
        assert_eq!(chunks[c], [i, i + 1, i + 2, i + 3]);
    }
}

#[test]
fn test_first_clear() {
    let mut bitmap = bitmap_of(64, 64 * 64);
    assert_eq!(bitmap.first_clear(), Some(BitPtr::new(0, 0)));
    bitmap.set_entry(0, u64::MAX);
    assert_eq!(bitmap.first_clear(), Some(BitPtr::new(1, 0)));
    for i in 0..64 {
        bitmap.set_entry(i, u64::MAX);
    }
    assert_eq!(bitmap.first_clear(), None);
}

fn set_case(bitmap: &mut Bitmap, entry_index: u64, bit_offset: u8, count: u64) {
    bitmap.reset();
    bitmap.set(BitPtr::new(entry_index, bit_offset), count);
}

#[test]
fn test_set() {
    let mut bitmap = bitmap_of(64, 64 * 64);

    set_case(&mut bitmap, 0, 0, 1);
    assert_eq!(bitmap.entry(0), 1);
    assert!(rest_all(&bitmap, 1, 0));

    set_case(&mut bitmap, 0, 0, 64);
    assert_eq!(bitmap.entry(0), u64::MAX);
    assert!(rest_all(&bitmap, 1, 0));

    set_case(&mut bitmap, 0, 1, 3);
    assert_eq!(bitmap.entry(0), 0b1110);
    assert!(rest_all(&bitmap, 1, 0));

    set_case(&mut bitmap, 0, 60, 5);
    assert_eq!(bitmap.entry(0), 0b1111 << 60);
    assert_eq!(bitmap.entry(1), 0b1);
    assert!(rest_all(&bitmap, 2, 0));

    set_case(&mut bitmap, 1, 0, 128);
    assert_eq!(bitmap.entry(1), u64::MAX);
    assert_eq!(bitmap.entry(2), u64::MAX);
    assert!(rest_all(&bitmap, 3, 0));

    set_case(&mut bitmap, 2, 32, 64);
    assert_eq!(bitmap.entry(2), 0xFFFF_FFFF_0000_0000);
    assert_eq!(bitmap.entry(3), 0x0000_0000_FFFF_FFFF);
    assert!(rest_all(&bitmap, 4, 0));

    set_case(&mut bitmap, 0, 0, 64 * 64);
    for i in 0..64 {
        assert_eq!(bitmap.entry(i), u64::MAX, "Entry {} should be fully set", i);
    }

    set_case(&mut bitmap, 0, 32, 64 * 32);
    assert_eq!(bitmap.entry(0), 0xFFFF_FFFF_0000_0000);
    for i in 1..31 {
        assert_eq!(bitmap.entry(i), u64::MAX, "Entry {} should be fully set", i);
    }
    assert_eq!(bitmap.entry(32), 0x0000_0000_FFFF_FFFF);
    assert!(rest_all(&bitmap, 33, 0));
}

fn clear_case(bitmap: &mut Bitmap, entry_index: u64, bit_offset: u8, count: u64) {
    for i in 0..bitmap.len() {
        bitmap.set_entry(i, u64::MAX);
    }
    bitmap.clear(BitPtr::new(entry_index, bit_offset), count);
}

#[test]
fn test_clear() {
    let mut bitmap = Bitmap::init(vec![u64::MAX; 64], 64 * 64, 0);

    clear_case(&mut bitmap, 0, 1, 3);
    assert_eq!(bitmap.entry(0), !0b1110);
    assert!(rest_all(&bitmap, 1, u64::MAX));

    clear_case(&mut bitmap, 0, 0, 64);
    assert_eq!(bitmap.entry(0), 0);
    assert!(rest_all(&bitmap, 1, u64::MAX));

    clear_case(&mut bitmap, 0, 60, 5);
    assert_eq!(bitmap.entry(0), !(0b1111 << 60));
    assert_eq!(bitmap.entry(1), !0b1);
    assert!(rest_all(&bitmap, 2, u64::MAX));

    clear_case(&mut bitmap, 0, 0, 32 * 64);
    for i in 0..32 {
        assert_eq!(bitmap.entry(i), 0);
    }
    assert!(rest_all(&bitmap, 32, u64::MAX));
}

#[test]
fn allocated_range_is_set_and_aligned() {
    let mut bitmap = bitmap_of(8, 8 * 64);
    bitmap.set(BitPtr::new(0, 0), 3);
    let p = bitmap.allocate(4, Alignment::new(4).unwrap()).unwrap();
    assert_eq!(p.bit_index() % 4, 0);
    assert!(p.bit_index() >= 3);
    assert!(bitmap.all_are_set(p, 4));
}

#[test]
fn test_range_mask() {
    assert_eq!(range_mask(0), 0);
    assert_eq!(range_mask(1), 0b1);
    assert_eq!(range_mask(2), 0b11);
    assert_eq!(range_mask(3), 0b111);
    assert_eq!(range_mask(64), u64::MAX);
    assert_eq!(range_mask(888), u64::MAX);
}

#[test]
fn test_rep_mask() {
    assert_eq!(rep_mask(0b1, 1), 0xFFFF_FFFF_FFFF_FFFF);
    assert_eq!(rep_mask(0b1, 2), 0x5555_5555_5555_5555);
    assert_eq!(rep_mask(0b11, 2), 0xFFFF_FFFF_FFFF_FFFF);
    assert_eq!(rep_mask(0xDEADBEEF, 32), 0xDEADBEEF_DEADBEEF);
}

#[test]
fn test_bytes_to_pages() {
    assert_eq!(bytes_to_pages(0), 0);
    assert_eq!(bytes_to_pages(TABLE_SIZE - 1), 1);
    assert_eq!(bytes_to_pages(TABLE_SIZE), 1);
    assert_eq!(bytes_to_pages(TABLE_SIZE + 1), 2);
}

const TEST_BASE: u64 = 0x1000_0000;

fn state_machine(bitmap: Bitmap, size: u64, alignment: usize) -> AllocationStateMachine {
    AllocationStateMachine::new(
        size,
        Alignment::new(alignment).expect("state_machine: alignment not power of 2"),
        bitmap,
    )
}

fn owned_bitmap(entries: usize) -> Bitmap {
    Bitmap::init(vec![0u64; entries], 64 * entries as u64, TEST_BASE)
}

fn validate_allocation(bitmap: &Bitmap, addr: VirtAddr, expected: VirtAddr, size: u64, alignment: usize) {
    assert!(addr.as_u64() % alignment as u64 == 0, "Address is not properly aligned");
    assert!(addr.as_u64() >= bitmap.base_addr(), "Address is below bitmap base");
    assert!(
        addr.as_u64() + size <= bitmap.base_addr() + bitmap.n_bits() * TABLE_SIZE,
        "Address range exceeds bitmap bounds"
    );
    assert!(size > 0, "Size must be greater than 0");
    assert_eq!(addr, expected, "Allocated address does not match expected address");
    let index = (addr.as_u64() - bitmap.base_addr()) / TABLE_SIZE;
    assert!(bitmap.all_are_set(BitPtr::new_wrapping(0, index), size / TABLE_SIZE));
}

#[test]
fn test_alloc_one_unalign() {
    let mut sm = state_machine(owned_bitmap(4), TABLE_SIZE, 1);
    let res = sm.do_step(0).expect("should not skip");
    validate_allocation(sm.bitmap(), res, VirtAddr::new(TEST_BASE), TABLE_SIZE, 1);
}

#[test]
fn test_alloc_one_entry_aligned_skip() {
    let mut sm = state_machine(owned_bitmap(4), TABLE_SIZE, TABLE_SIZE as usize * 64);
    let res = sm.do_step(0);
    assert_eq!(res, Ok(VirtAddr::new(TEST_BASE)));
    assert_eq!(sm.scan_state(), ScanState::Scanning);
    assert_eq!(sm.bitmap().entry(0), 0b1);

    sm.reset_scan();
    let res = sm.do_step(0);
    assert_eq!(res, Err(SkipStrategy::NextAligned));
    let res = sm.do_step(1).unwrap();
    validate_allocation(
        sm.bitmap(),
        res,
        VirtAddr::new(TEST_BASE + TABLE_SIZE * 64),
        TABLE_SIZE,
        TABLE_SIZE as usize * 64,
    );
}

#[test]
fn test_alloc_entry_unaligned_gt_entry() {
    let mut sm = state_machine(owned_bitmap(4), TABLE_SIZE * 65, TABLE_SIZE as usize);
    let res = sm.do_step(0);
    assert_eq!(res, Err(SkipStrategy::Next));
    assert_eq!(
        sm.scan_state(),
        ScanState::Allocating { start: BitPtr::new(0, 0), remaining_size: TABLE_SIZE }
    );
    let res = sm.do_step(1);
    validate_allocation(
        sm.bitmap(),
        res.expect("should allocate"),
        VirtAddr::new(TEST_BASE),
        TABLE_SIZE * 65,
        TABLE_SIZE as usize,
    );
}

#[test]
fn test_alloc_entry_aligned_lt_entry() {
    let mut bitmap = owned_bitmap(4);
    bitmap.set_entry(0, range_mask(9));
    let mut sm = state_machine(bitmap, TABLE_SIZE / 2, TABLE_SIZE as usize * 4);
    let res = sm.do_step(0);
    validate_allocation(
        sm.bitmap(),
        res.expect("should allocate"),
        VirtAddr::new(TEST_BASE + 12 * TABLE_SIZE),
        TABLE_SIZE / 2,
        TABLE_SIZE as usize * 4,
    );
}

#[test]
fn run_skips_full_entries() {
    let mut bitmap = owned_bitmap(4);
    bitmap.set_entry(0, u64::MAX);
    bitmap.set_entry(1, 0b11);
    let mut sm = state_machine(bitmap, TABLE_SIZE * 2, TABLE_SIZE as usize * 2);
    let addr = sm.run().expect("should allocate");
    assert_eq!(addr, VirtAddr::new(TEST_BASE + (64 + 2) * TABLE_SIZE));
    assert_eq!(sm.bitmap().entry(1), 0b1111);
}

#[test]
fn run_takes_only_slots_with_every_page_free() {
    let mut bitmap = owned_bitmap(4);
    bitmap.set_entry(0, 0b1);
    let mut sm = state_machine(bitmap, TABLE_SIZE * 2, TABLE_SIZE as usize * 2);
    let addr = sm.run().expect("should allocate");
    // Page 0 is taken, so the first aligned pair of free pages is pages 2 and 3.
    assert_eq!(addr, VirtAddr::new(TEST_BASE + 2 * TABLE_SIZE));
    assert_eq!(sm.bitmap().entry(0), 0b1101);
}

#[test]
fn run_gives_none_on_a_full_bitmap() {
    let mut bitmap = owned_bitmap(2);
    bitmap.set_entry(0, u64::MAX);
    bitmap.set_entry(1, u64::MAX);
    let mut sm = state_machine(bitmap, TABLE_SIZE, TABLE_SIZE as usize);
    assert_eq!(sm.run(), None);
    assert_eq!(sm.bitmap().entry(0), u64::MAX);
}

#[test]
fn first_clear_looks_at_every_entry() {
    let m = u64::MAX;
    let b = Bitmap::init(vec![m, m, m, m, 0], 5 * 64, TEST_BASE);
    assert_eq!(b.first_clear(), Some(BitPtr::new(4, 0)));
    // A clear bit past the bits in use does not count.
    let c = Bitmap::init(vec![m, 0], 64 + 3, TEST_BASE);
    assert_eq!(c.first_clear(), Some(BitPtr::new(1, 0)));
    let d = Bitmap::init(vec![m, 0b111], 64 + 3, TEST_BASE);
    assert_eq!(d.first_clear(), None);
}

#[test]
fn allocate_finds_a_run_across_entries() {
    let mut b = Bitmap::init(vec![0x0FFF_FFFF_FFFF_FFFFu64, 0xFFFF_FFFF_FFFF_FFF0u64], 128, TEST_BASE);
    assert_eq!(b.allocate(8, Alignment::new(1).unwrap()), Some(BitPtr::new(0, 60)));
    assert_eq!(b.entry(0), u64::MAX);
    assert_eq!(b.entry(1), u64::MAX);
    // Nothing is left, so the next request fails and changes nothing.
    assert_eq!(b.allocate(1, Alignment::new(1).unwrap()), None);
}
