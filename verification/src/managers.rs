//! Memory managers over bitmaps: one bit per small page of a managed range.
use vstd::prelude::*;
use crate::addr::{Address, VirtAddr};
use crate::align::Alignment;
use crate::alloc_state::{bytes_to_pages, pages_for};
use crate::arch::{VIRT_HIGH_BITS, VIRT_SIGN_BIT};
use crate::bitmap::{Bitmap, bit_of, bitmap_search, fits_at, range_written};
use crate::bitptr::{BitPtr, BITPTR_MAX_ENTRY};
use crate::mem::Layout;
use crate::primitives::{FragmentSize, Frame, MemoryRange, SMALL_SIZE, is_page_size};
use crate::addr::PhysAddr;
use crate::arch::PHYSICAL_ADDRESS_MAX;
use crate::mem::MemError;
use crate::walker::MemoryRegion;

verus! {

/// An alignment in bytes as an alignment in bits of a bitmap of small pages: one bit per page,
/// and at least one bit.
pub open spec fn bits_for_align(a: u64) -> u64 {
    if a >= SMALL_SIZE {
        a / SMALL_SIZE
    } else {
        1
    }
}

/// The alignment in bits, in a bitmap of small pages, of the alignment `align` in bytes.
pub fn align_in_bits(align: Alignment) -> (r: Alignment)
    ensures
        r@ == bits_for_align(align@),
{
    let k = align.log2();
    if k >= 12 {
        proof {
            assert(k >= 12 && k < 64 ==> (1u64 << k) >= 4096u64 && (1u64 << k) / 4096u64 == 1u64 << (
            (k - 12) as u64)) by (bit_vector);
        }
        Alignment::from_log2(k - 12)
    } else {
        proof {
            assert(k < 12 ==> (1u64 << k) < 4096u64) by (bit_vector);
            crate::arch::lemma_shift_constants();
        }
        Alignment::from_log2(0)
    }
}

/// An offset of whole pages whose page index is a multiple of the alignment in bits of `al`
/// is a multiple of `al` in bytes.
pub proof fn lemma_page_offset_aligned(idx: int, al: u64)
    requires
        crate::align::is_pow2(al),
        idx >= 0,
        idx % (bits_for_align(al) as int) == 0,
    ensures
        (idx * SMALL_SIZE) % (al as int) == 0,
{
    crate::arch::lemma_shift_constants();
    let k = choose|k: u64| k < 64 && al == #[trigger] (1u64 << k);
    vstd::bits::lemma_u64_pow2_no_overflow(k as nat);
    vstd::bits::lemma_u64_shl_is_mul(1, k);
    vstd::arithmetic::power2::lemma_pow2_pos(k as nat);
    if al >= 4096 {
        lemma_pow2_le_divides(12, k);
        vstd::arithmetic::div_mod::lemma_fundamental_div_mod(al as int, 4096int);
        let q = al as int / 4096;
        assert(q > 0);
        vstd::arithmetic::div_mod::lemma_fundamental_div_mod(idx, q);
        let m = idx / q;
        assert(idx * 4096 == m * (al as int)) by (nonlinear_arith)
            requires
                idx == q * m,
                al as int == 4096 * q,
        ;
        vstd::arithmetic::div_mod::lemma_mod_multiples_basic(m, al as int);
    } else {
        lemma_pow2_le_divides(k, 12);
        vstd::arithmetic::div_mod::lemma_fundamental_div_mod(4096int, al as int);
        let r: int = 4096int / (al as int);
        assert(idx * 4096 == (idx * r) * (al as int)) by (nonlinear_arith)
            requires
                4096 == (al as int) * r,
        ;
        assert(idx * r >= 0) by (nonlinear_arith)
            requires
                idx >= 0,
                r >= 0,
        ;
        vstd::arithmetic::div_mod::lemma_mod_multiples_basic(idx * r, al as int);
    }
}

/// The address of bit `bit_index` in a bitmap of small pages starting at `base`; the address
/// must be valid.
pub fn bit_index_as_address<A: Address>(bit_index: u64, base: A) -> (r: A)
    requires
        base.spec_u64() + bit_index * SMALL_SIZE <= u64::MAX,
        A::spec_valid((base.spec_u64() + bit_index * SMALL_SIZE) as u64),
    ensures
        r.spec_u64() == base.spec_u64() + bit_index * SMALL_SIZE,
{
    A::new(base.as_u64() + bit_index * SMALL_SIZE)
}

/// The bit of `addr` in a bitmap of small pages starting at `base`, or `None` when `addr` is
/// below `base` or not a whole number of small pages from it.
pub fn address_as_bit_index<A: Address>(addr: A, base: A) -> (r: Option<BitPtr>)
    ensures
        r is Some <==> (addr.spec_u64() >= base.spec_u64() && (addr.spec_u64() - base.spec_u64())
            % SMALL_SIZE as int == 0),
        r matches Some(p) ==> p.spec_index() == (addr.spec_u64() - base.spec_u64()) / SMALL_SIZE as int,
{
    let a = addr.as_u64();
    let b = base.as_u64();
    if a < b {
        return None;
    }
    let diff = a - b;
    if diff % SMALL_SIZE != 0 {
        return None;
    }
    let index = diff / SMALL_SIZE;
    Some(BitPtr::new(index / 64, (index % 64) as u8))
}

/// Shifting one bit one place further doubles it.
proof fn lemma_shl_double(k: u64)
    requires
        k < 63,
    ensures
        (1u64 << ((k + 1) as u64)) == 2 * (1u64 << k),
        (1u64 << k) >= 1,
{
    vstd::bits::lemma_u64_pow2_no_overflow(k as nat);
    vstd::bits::lemma_u64_pow2_no_overflow((k + 1) as nat);
    vstd::bits::lemma_u64_shl_is_mul(1, k);
    vstd::bits::lemma_u64_shl_is_mul(1, (k + 1) as u64);
    vstd::arithmetic::power2::lemma_pow2_unfold((k + 1) as nat);
    vstd::arithmetic::power2::lemma_pow2_pos(k as nat);
}

/// A power of two divides every larger power of two.
pub proof fn lemma_pow2_divides(i: u64, j: u64)
    requires
        i <= j < 64,
    ensures
        (1u64 << j) as int % (1u64 << i) as int == 0,
        (1u64 << i) <= (1u64 << j),
{
    vstd::bits::lemma_u64_pow2_no_overflow(i as nat);
    vstd::bits::lemma_u64_pow2_no_overflow(j as nat);
    vstd::bits::lemma_u64_shl_is_mul(1, i);
    vstd::bits::lemma_u64_shl_is_mul(1, j);
    let d = (j - i) as nat;
    vstd::arithmetic::power2::lemma_pow2_adds(i as nat, d);
    vstd::arithmetic::power2::lemma_pow2_pos(i as nat);
    vstd::arithmetic::power2::lemma_pow2_pos(d);
    assert(i as nat + d == j as nat);
    let a = vstd::arithmetic::power2::pow2(i as nat) as int;
    let b = vstd::arithmetic::power2::pow2(d) as int;
    assert((1u64 << j) as int == a * b);
    assert((1u64 << i) as int == a);
    vstd::arithmetic::div_mod::lemma_mod_multiples_basic(b, a);
    assert(a * b == b * a) by (nonlinear_arith);
    assert(a <= b * a) by (nonlinear_arith)
        requires
            a > 0,
            b > 0,
    ;
}

/// The exponent of the largest power of two, at most `1 << 63`, that divides `v`, searched
/// from `1 << k` up.
pub open spec fn natural_log2(v: u64, k: u64) -> u64
    decreases 63 - k,
{
    if k >= 63 || v as int % (1u64 << ((k + 1) as u64)) as int != 0 {
        k
    } else {
        natural_log2(v, (k + 1) as u64)
    }
}

/// Powers of two of which one is at most the other: the larger is a multiple of the smaller.
pub proof fn lemma_pow2_le_divides(a: u64, b: u64)
    requires
        a < 64,
        b < 64,
        (1u64 << a) <= (1u64 << b),
    ensures
        a <= b,
        (1u64 << b) as int % (1u64 << a) as int == 0,
{
    if b < a {
        lemma_pow2_divides((b + 1) as u64, a);
        lemma_shl_double(b);
    }
    lemma_pow2_divides(a, b);
}

/// The largest power of two, at most `1 << 63`, that divides the address `addr`.
pub fn alignment_of<A: Address>(addr: A) -> (r: Alignment)
    ensures
        r.spec_log2() == natural_log2(addr.spec_u64(), 0),
        addr.spec_u64() as int % r@ as int == 0,
        r.spec_log2() < 63 ==> addr.spec_u64() as int % (2 * r@ as int) != 0,
{
    let v = addr.as_u64();
    let mut k: u64 = 0;
    proof {
        crate::arch::lemma_shift_constants();
    }
    loop
        invariant
            k <= 63,
            v as int % (1u64 << k) as int == 0,
            natural_log2(v, k) == natural_log2(v, 0),
        ensures
            natural_log2(v, k) == k,
            natural_log2(v, k) == natural_log2(v, 0),
            k <= 63,
            v as int % (1u64 << k) as int == 0,
            k < 63 ==> v as int % (1u64 << ((k + 1) as u64)) as int != 0,
        decreases 63 - k,
    {
        if k == 63 {
            break;
        }
        proof {
            lemma_shl_double(k);
        }
        let next: u64 = 1u64 << (k + 1);
        if v % next != 0 {
            break;
        }
        k += 1;
    }
    proof {
        if k < 63 {
            lemma_shl_double(k);
        }
    }
    Alignment::from_log2(k)
}

/// The addresses `base + i * SMALL_SIZE` for `i <= n_pages` all lie in one canonical half of
/// the virtual address space.
pub open spec fn virt_span_ok(base: u64, n_pages: int) -> bool {
    ||| base + n_pages * SMALL_SIZE < VIRT_SIGN_BIT
    ||| (base >= (VIRT_HIGH_BITS | VIRT_SIGN_BIT) && base + n_pages * SMALL_SIZE <= u64::MAX)
}

/// A manager of a range of virtual addresses, one bit per small page of it.
pub struct VirtualMemoryManager {
    bitmap: Bitmap,
    base_addr: VirtAddr,
}

impl VirtualMemoryManager {
    /// The entries of the bitmap.
    pub closed spec fn bits(&self) -> Seq<u64> {
        self.bitmap.entries()
    }

    /// The number of pages managed.
    pub closed spec fn n_pages(&self) -> u64 {
        self.bitmap.spec_n_bits()
    }

    /// The start of the managed range.
    pub closed spec fn base(&self) -> u64 {
        self.base_addr@
    }

    /// The bitmap is consistent and every managed page has a valid address.
    pub closed spec fn wf(&self) -> bool {
        &&& self.bitmap.wf()
        &&& virt_span_ok(self.base_addr@, self.bitmap.spec_n_bits() as int)
    }

    /// Manages the range `range` with the bitmap `bitmap_data`, whose bits must cover every page
    /// of the range; the range rounded up to whole pages must lie in one canonical half.
    pub fn init(bitmap_data: Vec<u64>, range: MemoryRange<VirtAddr>) -> (r: Self)
        requires
            range.spec_start() < range.spec_end(),
            pages_for((range.spec_end() - range.spec_start()) as u64) <= bitmap_data@.len() * 64,
            bitmap_data@.len() < BITPTR_MAX_ENTRY,
            virt_span_ok(range.spec_start(), pages_for((range.spec_end() - range.spec_start()) as u64)),
        ensures
            r.wf(),
            r.bits() == bitmap_data@,
            r.n_pages() == pages_for((range.spec_end() - range.spec_start()) as u64),
            r.base() == range.spec_start(),
    {
        let start = range.start();
        let n = bytes_to_pages(range.size());
        VirtualMemoryManager { bitmap: Bitmap::init(bitmap_data, n, start.as_u64()), base_addr: start }
    }

    /// Allocates a range of whole pages covering `layout.size()` bytes, aligned to the layout's
    /// alignment in pages, and returns its start. The bitmap search (`Bitmap::allocate`) decides
    /// where; `None` leaves the bitmap unchanged.
    pub fn allocate(&mut self, layout: Layout) -> (r: Option<VirtAddr>)
        requires
            old(self).wf(),
        ensures
            final(self).wf(),
            final(self).n_pages() == old(self).n_pages(),
            final(self).base() == old(self).base(),
            match bitmap_search(
                old(self).bits(),
                old(self).n_pages(),
                pages_for(layout.spec_size() as u64) as int,
                bits_for_align(layout.spec_align() as u64),
            ) {
                Some(i) => r matches Some(a) && a@ == old(self).base() + i * SMALL_SIZE,
                None => r is None,
            },
            r is None ==> final(self).bits() == old(self).bits(),
            r matches Some(a) ==> (old(self).base() as int % layout.spec_align() as int == 0 ==> a@ as int
                % layout.spec_align() as int == 0),
            r matches Some(a) ==> {
                let idx = (a@ - old(self).base()) / SMALL_SIZE as int;
                let n = pages_for(layout.spec_size() as u64);
                &&& a@ >= old(self).base()
                &&& (a@ - old(self).base()) % SMALL_SIZE as int == 0
                &&& fits_at(old(self).bits(), old(self).n_pages(), idx, n, bits_for_align(layout.spec_align() as u64) as int)
                &&& range_written(old(self).bits(), final(self).bits(), idx, idx + n, true)
            },
    {
        let n_bits = bytes_to_pages(layout.size() as u64);
        let byte_align = layout.alignment();
        // The call shows that the alignment is a power of two.
        let _align_bytes = byte_align.as_u64();
        let bit_align = align_in_bits(byte_align);
        let bitptr = match self.bitmap.allocate(n_bits, bit_align) {
            Some(p) => p,
            None => return None,
        };
        let idx = bitptr.bit_index();
        proof {
            vstd::arithmetic::div_mod::lemma_div_multiples_vanish(idx as int, SMALL_SIZE as int);
            vstd::arithmetic::div_mod::lemma_mod_multiples_basic(idx as int, SMALL_SIZE as int);
            let al = layout.spec_align() as u64;
            lemma_page_offset_aligned(idx as int, al);
            if self.base_addr@ as int % al as int == 0 {
                vstd::arithmetic::div_mod::lemma_mod_adds(self.base_addr@ as int, idx * SMALL_SIZE, al as int);
            }
        }
        Some(bit_index_as_address(idx, self.base_addr))
    }

    /// Frees the pages covering `layout.size()` bytes from `addr`, which must be a whole number
    /// of pages from the start, with those pages inside the managed range.
    pub fn deallocate(&mut self, addr: VirtAddr, layout: Layout)
        requires
            old(self).wf(),
            addr@ >= old(self).base(),
            (addr@ - old(self).base()) % SMALL_SIZE as int == 0,
            (addr@ - old(self).base()) / SMALL_SIZE as int + pages_for(layout.spec_size() as u64)
                <= old(self).n_pages(),
        ensures
            final(self).wf(),
            final(self).n_pages() == old(self).n_pages(),
            final(self).base() == old(self).base(),
            range_written(
                old(self).bits(),
                final(self).bits(),
                (addr@ - old(self).base()) / SMALL_SIZE as int,
                (addr@ - old(self).base()) / SMALL_SIZE as int + pages_for(layout.spec_size() as u64),
                false,
            ),
    {
        let n_bits = bytes_to_pages(layout.size() as u64);
        let bitptr = address_as_bit_index(addr, self.base_addr).unwrap();
        self.bitmap.clear(bitptr, n_bits);
    }

    /// Marks the pages covering `size_bytes` bytes from `addr` as allocated; `addr` must be a
    /// whole number of pages from the start, with those pages inside the managed range.
    pub fn mark_allocated(&mut self, addr: VirtAddr, size_bytes: u64)
        requires
            old(self).wf(),
            addr@ >= old(self).base(),
            (addr@ - old(self).base()) % SMALL_SIZE as int == 0,
            (addr@ - old(self).base()) / SMALL_SIZE as int + pages_for(size_bytes) <= old(self).n_pages(),
        ensures
            final(self).wf(),
            final(self).n_pages() == old(self).n_pages(),
            final(self).base() == old(self).base(),
            range_written(
                old(self).bits(),
                final(self).bits(),
                (addr@ - old(self).base()) / SMALL_SIZE as int,
                (addr@ - old(self).base()) / SMALL_SIZE as int + pages_for(size_bytes),
                true,
            ),
    {
        let n_bits = bytes_to_pages(size_bytes);
        let bitptr = address_as_bit_index(addr, self.base_addr).unwrap();
        self.bitmap.set(bitptr, n_bits);
    }

    /// Marks the pages covering `size_bytes` bytes from `addr` as free; `addr` must be a whole
    /// number of pages from the start, with those pages inside the managed range.
    pub fn mark_unallocated(&mut self, addr: VirtAddr, size_bytes: u64)
        requires
            old(self).wf(),
            addr@ >= old(self).base(),
            (addr@ - old(self).base()) % SMALL_SIZE as int == 0,
            (addr@ - old(self).base()) / SMALL_SIZE as int + pages_for(size_bytes) <= old(self).n_pages(),
        ensures
            final(self).wf(),
            final(self).n_pages() == old(self).n_pages(),
            final(self).base() == old(self).base(),
            range_written(
                old(self).bits(),
                final(self).bits(),
                (addr@ - old(self).base()) / SMALL_SIZE as int,
                (addr@ - old(self).base()) / SMALL_SIZE as int + pages_for(size_bytes),
                false,
            ),
    {
        let n_bits = bytes_to_pages(size_bytes);
        let bitptr = address_as_bit_index(addr, self.base_addr).unwrap();
        self.bitmap.clear(bitptr, n_bits);
    }

    /// Marks every page free.
    pub fn reset(&mut self)
        requires
            old(self).wf(),
        ensures
            final(self).wf(),
            final(self).n_pages() == old(self).n_pages(),
            final(self).base() == old(self).base(),
            final(self).bits().len() == old(self).bits().len(),
            forall|e: int| 0 <= e < final(self).bits().len() ==> #[trigger] final(self).bits()[e] == 0,
    {
        self.bitmap.reset();
    }

    /// Whether every page covering `size_bytes` bytes from `addr` is allocated; `addr` must be a
    /// whole number of pages from the start, with those pages inside the managed range.
    pub fn is_allocated(&self, addr: VirtAddr, size_bytes: u64) -> (r: bool)
        requires
            self.wf(),
            addr@ >= self.base(),
            (addr@ - self.base()) % SMALL_SIZE as int == 0,
            (addr@ - self.base()) / SMALL_SIZE as int + pages_for(size_bytes) <= self.n_pages(),
        ensures
            r == crate::bitmap::all_set_in(
                self.bits(),
                (addr@ - self.base()) / SMALL_SIZE as int,
                (addr@ - self.base()) / SMALL_SIZE as int + pages_for(size_bytes),
            ),
    {
        let n_bits = bytes_to_pages(size_bytes);
        let bitptr = address_as_bit_index(addr, self.base_addr).unwrap();
        self.bitmap.all_are_set(bitptr, n_bits)
    }

    /// Whether every page of the managed range is free.
    pub fn is_empty(&self) -> (r: bool)
        requires
            self.wf(),
        ensures
            r == forall|e: int| 0 <= e < self.bits().len() ==> #[trigger] self.bits()[e] == 0,
    {
        let len = self.bitmap.len();
        let mut i: usize = 0;
        while i < len
            invariant
                i <= len,
                len == self.bits().len(),
                self.wf(),
                forall|e: int| 0 <= e < i ==> #[trigger] self.bits()[e] == 0,
            decreases len - i,
        {
            if self.bitmap.entry(i) != 0 {
                return false;
            }
            i += 1;
        }
        true
    }
}

/// The bitmap of one region of physical memory, one bit per small frame.
pub struct BitmapEntry {
    bitmap: Bitmap,
    start: PhysAddr,
    bit_alignment: Alignment,
    free: u64,
}

impl BitmapEntry {
    /// The start of the region.
    pub closed spec fn start_addr(&self) -> u64 {
        self.start@
    }

    /// The number of frames the bitmap tracks.
    pub closed spec fn n_frames(&self) -> u64 {
        self.bitmap.spec_n_bits()
    }

    /// The alignment, in frames, that allocations from this region get: the largest the start
    /// of the region has.
    pub closed spec fn align_frames(&self) -> u64 {
        self.bit_alignment@
    }

    /// The number of frames counted as free.
    pub closed spec fn free_frames(&self) -> u64 {
        self.free
    }

    /// The entries of the bitmap.
    pub closed spec fn bits(&self) -> Seq<u64> {
        self.bitmap.entries()
    }

    /// The bitmap is consistent, and the region starts at a multiple of its alignment and
    /// ends within the physical address width.
    pub closed spec fn wf(&self) -> bool {
        &&& self.bitmap.wf()
        &&& self.bitmap.spec_base() == self.start@
        &&& self.bit_alignment.spec_log2() < 64
        &&& self.bit_alignment@ == 1u64 << self.bit_alignment.spec_log2()
        &&& self.start@ % SMALL_SIZE == 0
        &&& self.start@ as int % (self.bit_alignment@ * SMALL_SIZE) == 0
        &&& self.start@ + self.bitmap.spec_n_bits() * SMALL_SIZE <= PHYSICAL_ADDRESS_MAX + 1
    }

    /// The end of the region: its start plus one small frame per bit.
    pub open spec fn end_addr(&self) -> int {
        self.start_addr() + self.n_frames() * SMALL_SIZE
    }

    /// The bitmap of the region `range`, which must start at a multiple of a small frame, over
    /// `data`, which must hold a bit for each frame of it; all of its frames count as free.
    pub fn new(range: MemoryRange<PhysAddr>, data: Vec<u64>) -> (r: BitmapEntry)
        requires
            range.spec_start() < range.spec_end(),
            range.spec_start() % SMALL_SIZE == 0,
            pages_for((range.spec_end() - range.spec_start()) as u64) <= data@.len() * 64,
            data@.len() < BITPTR_MAX_ENTRY,
        ensures
            r.wf(),
            r.start_addr() == range.spec_start(),
            r.n_frames() == pages_for((range.spec_end() - range.spec_start()) as u64),
            r.align_frames() == bits_for_align((1u64 << natural_log2(range.spec_start(), 0))),
            r.free_frames() == (range.spec_end() - range.spec_start()) / SMALL_SIZE as int,
            r.bits() == data@,
    {
        let start = range.start();
        let size = range.size();
        let bits = bytes_to_pages(size);
        let natural = alignment_of(start);
        let lg = natural.log2();
        let end_u = range.end().as_u64();
        let bit_alignment = align_in_bits(natural);
        // The call relates the alignment to its logarithm.
        let _bl = bit_alignment.log2();
        proof {
            let a = natural@ as int;
            let b = bit_alignment@ as int;
            crate::arch::lemma_shift_constants();
            if a >= 4096 {
                lemma_pow2_le_divides(12, lg);
                vstd::arithmetic::div_mod::lemma_fundamental_div_mod(a, 4096);
            }
            assert(start@ as int % (b * 4096) == 0);
            let end = range.spec_end() as int;
            let st = start@ as int;
            vstd::arithmetic::div_mod::lemma_fundamental_div_mod(size as int, 4096);
            assert(bits * 4096 < size + 4096);
            assert((st + bits * 4096) % 4096 == 0) by {
                vstd::arithmetic::div_mod::lemma_mod_multiples_basic(bits as int, 4096);
                vstd::arithmetic::div_mod::lemma_fundamental_div_mod(st, 4096);
                vstd::arithmetic::div_mod::lemma_mod_multiples_basic(st / 4096 + bits as int, 4096);
            }
            let x = st + bits * 4096;
            vstd::arithmetic::div_mod::lemma_fundamental_div_mod(x, 4096);
            let q = x / 4096;
            assert(x == 4096 * q);
            assert(x < end_u + 4096);
            assert(q <= 0x100_0000_0000);
        }
        BitmapEntry {
            bitmap: Bitmap::init(data, bits, start.as_u64()),
            start,
            bit_alignment,
            free: size / SMALL_SIZE,
        }
    }

    /// The size of the region in bytes.
    pub fn size(&self) -> (r: u64)
        requires
            self.wf(),
        ensures
            r == self.n_frames() * SMALL_SIZE,
    {
        self.bitmap.n_bits() * SMALL_SIZE
    }

    /// The end of the region.
    pub fn end(&self) -> (r: u64)
        requires
            self.wf(),
        ensures
            r == self.end_addr(),
    {
        self.start.as_u64() + self.bitmap.n_bits() * SMALL_SIZE
    }
}

/// A request for fragments of `size` bytes looks at the region `b`: its allocations are aligned
/// to at least the fragment size, and it counts at least as many free frames as a fragment has.
pub open spec fn eligible(b: BitmapEntry, size: u64) -> bool {
    &&& b.align_frames() >= size / SMALL_SIZE
    &&& b.free_frames() >= size / SMALL_SIZE
}

/// The region, at `i` or after it, that serves a request for a fragment of `size` bytes, with
/// the frame found there: the first `eligible` region whose bitmap search, aligned to the
/// region's alignment, finds room.
pub open spec fn region_pick(rs: Seq<BitmapEntry>, size: u64, i: int) -> Option<(int, int)>
    decreases rs.len() - i,
{
    if i >= rs.len() {
        None
    } else if eligible(rs[i], size) && bitmap_search(
        rs[i].bits(),
        rs[i].n_frames(),
        (size / SMALL_SIZE) as int,
        rs[i].align_frames(),
    ) is Some {
        Some(
            (
                i,
                bitmap_search(
                    rs[i].bits(),
                    rs[i].n_frames(),
                    (size / SMALL_SIZE) as int,
                    rs[i].align_frames(),
                )->0,
            ),
        )
    } else {
        region_pick(rs, size, i + 1)
    }
}

/// `after` is the region `before` with the `n` frames from frame `idx` handed out: they were
/// free, inside the region and aligned to its alignment, and are now set; the free count drops
/// by `n`.
pub open spec fn taken(before: BitmapEntry, after: BitmapEntry, idx: int, n: int) -> bool {
    &&& after.wf()
    &&& after.start_addr() == before.start_addr()
    &&& after.n_frames() == before.n_frames()
    &&& after.align_frames() == before.align_frames()
    &&& after.free_frames() == before.free_frames() - n
    &&& fits_at(before.bits(), before.n_frames(), idx, n, before.align_frames() as int)
    &&& range_written(before.bits(), after.bits(), idx, idx + n, true)
}

/// `after` is the region `before` with the `n` frames from frame `idx` written to `value`, and
/// its free count changed by `delta`.
pub open spec fn written(before: BitmapEntry, after: BitmapEntry, idx: int, n: int, value: bool, delta: int) -> bool {
    &&& after.wf()
    &&& after.start_addr() == before.start_addr()
    &&& after.n_frames() == before.n_frames()
    &&& after.align_frames() == before.align_frames()
    &&& after.free_frames() == before.free_frames() + delta
    &&& range_written(before.bits(), after.bits(), idx, idx + n, value)
}

/// The regions `a` and `b` agree in everything the contracts see.
pub open spec fn same_region(a: BitmapEntry, b: BitmapEntry) -> bool {
    &&& a.wf() == b.wf()
    &&& a.start_addr() == b.start_addr()
    &&& a.n_frames() == b.n_frames()
    &&& a.align_frames() == b.align_frames()
    &&& a.free_frames() == b.free_frames()
    &&& a.bits() == b.bits()
}

/// `x` is a multiple of `d` when it is a multiple of a multiple `m` of `d`.
proof fn lemma_divides_trans(x: int, m: int, d: int)
    requires
        d > 0,
        m > 0,
        x % m == 0,
        m % d == 0,
    ensures
        x % d == 0,
{
    vstd::arithmetic::div_mod::lemma_fundamental_div_mod(x, m);
    vstd::arithmetic::div_mod::lemma_fundamental_div_mod(m, d);
    let q = x / m;
    let k = m / d;
    assert(x == (q * k) * d) by (nonlinear_arith)
        requires
            x == m * q,
            m == d * k,
    ;
    vstd::arithmetic::div_mod::lemma_mod_multiples_basic(q * k, d);
}

/// A frame handed out from a region is aligned to the fragment size `size` and lies within the
/// physical address width.
proof fn lemma_frame_from_region(b: BitmapEntry, idx: int, size: u64)
    requires
        b.wf(),
        is_page_size(size),
        b.align_frames() >= size / SMALL_SIZE,
        fits_at(b.bits(), b.n_frames(), idx, (size / SMALL_SIZE) as int, b.align_frames() as int),
        0 <= idx,
    ensures
        (b.start_addr() + idx * SMALL_SIZE) % size as int == 0,
        b.start_addr() + idx * SMALL_SIZE + size <= PHYSICAL_ADDRESS_MAX + 1,
{
    crate::arch::lemma_shift_constants();
    let bl = b.bit_alignment.spec_log2();
    let ls: u64 = if size == SMALL_SIZE {
        0
    } else if size == crate::primitives::MEDIUM_SIZE {
        9
    } else {
        18
    };
    let sp = (size / SMALL_SIZE) as int;
    assert(sp == (1u64 << ls) as int);
    lemma_pow2_le_divides(ls, bl);
    let ba = b.align_frames() as int;
    lemma_divides_trans(idx, ba, sp);
    assert(size as int == sp * 4096);
    assert((idx * 4096) % (sp * 4096) == 0) by {
        vstd::arithmetic::div_mod::lemma_fundamental_div_mod(idx, sp);
        let q = idx / sp;
        assert(idx * 4096 == q * (sp * 4096)) by (nonlinear_arith)
            requires
                idx == sp * q,
        ;
        vstd::arithmetic::div_mod::lemma_mod_multiples_basic(q, sp * 4096);
    }
    assert((ba * 4096) % (sp * 4096) == 0) by {
        vstd::arithmetic::div_mod::lemma_fundamental_div_mod(ba, sp);
        let q = ba / sp;
        assert(ba * 4096 == q * (sp * 4096)) by (nonlinear_arith)
            requires
                ba == sp * q,
        ;
        vstd::arithmetic::div_mod::lemma_mod_multiples_basic(q, sp * 4096);
    }
    lemma_divides_trans(b.start_addr() as int, ba * 4096, sp * 4096);
    vstd::arithmetic::div_mod::lemma_mod_adds(b.start_addr() as int, idx * 4096, sp * 4096);
    assert(idx * 4096 + size <= b.n_frames() * 4096) by (nonlinear_arith)
        requires
            idx + sp <= b.n_frames(),
            size == sp * 4096,
    ;
}

/// The index of the first region, at `i` or after it, that holds the addresses `[lo, hi)`.
pub open spec fn first_region(rs: Seq<BitmapEntry>, lo: int, hi: int, i: int) -> Option<int>
    decreases rs.len() - i,
{
    if i >= rs.len() {
        None
    } else if rs[i].start_addr() <= lo && hi <= rs[i].end_addr() {
        Some(i)
    } else {
        first_region(rs, lo, hi, i + 1)
    }
}

/// `first_region` finds a region at `i` or after it that holds the addresses, and none before
/// it from `i` on does.
pub proof fn lemma_first_region(rs: Seq<BitmapEntry>, lo: int, hi: int, i: int)
    requires
        0 <= i,
    ensures
        first_region(rs, lo, hi, i) matches Some(k) ==> i <= k < rs.len() && rs[k].start_addr()
            <= lo && hi <= rs[k].end_addr(),
    decreases rs.len() - i,
{
    if i < rs.len() && !(rs[i].start_addr() <= lo && hi <= rs[i].end_addr()) {
        lemma_first_region(rs, lo, hi, i + 1);
    }
}

/// What handing out a frame of size `S` makes of the regions `before`, giving `after` and the
/// result `r`: the frame that `region_pick` chooses is taken from its region and the others stay
/// as they were; `OutOfMemory`, with every region unchanged, when no region has room.
pub open spec fn frame_served<S: FragmentSize>(
    before: Seq<BitmapEntry>,
    after: Seq<BitmapEntry>,
    r: Result<Frame<S>, MemError>,
) -> bool {
    &&& after.len() == before.len()
    &&& match region_pick(before, S::spec_size(), 0) {
        Some((i, idx)) => {
            &&& r matches Ok(f) && f@ == before[i].start_addr() + idx * SMALL_SIZE
            &&& taken(before[i], after[i], idx, (S::spec_size() / SMALL_SIZE) as int)
            &&& forall|j: int|
                0 <= j < before.len() && j != i ==> same_region(#[trigger] after[j], before[j])
        },
        None => r is Err,
    }
    &&& r matches Err(e) ==> e == MemError::OutOfMemory && forall|j: int|
        0 <= j < before.len() ==> same_region(#[trigger] after[j], before[j])
}

/// What taking back the frame `frame` makes of the regions `before`, giving `after`: its frames
/// are cleared in the first region that holds its start and counted as free there, and the other
/// regions stay as they were.
pub open spec fn frame_returned<S: FragmentSize>(
    before: Seq<BitmapEntry>,
    after: Seq<BitmapEntry>,
    frame: Frame<S>,
) -> bool {
    &&& after.len() == before.len()
    &&& first_region(before, frame@ as int, frame@ + 1, 0) matches Some(i) && written(
        before[i],
        after[i],
        (frame@ - before[i].start_addr()) / SMALL_SIZE as int,
        (S::spec_size() / SMALL_SIZE) as int,
        false,
        (S::spec_size() / SMALL_SIZE) as int,
    ) && forall|j: int|
        0 <= j < before.len() && j != i ==> same_region(#[trigger] after[j], before[j])
}

/// The key by which regions are ordered: their free count.
fn free_key(e: &BitmapEntry) -> (r: u64)
    ensures
        r == e.free,
{
    e.free
}

/// Slice `sort_unstable_by_key` on the free count: the same regions, in order of non-decreasing
/// free count; which of two regions with equal counts comes first is left open.
#[verifier::external_body]
fn sort_by_free(v: &mut Vec<BitmapEntry>)
    ensures
        final(v)@.to_multiset() == old(v)@.to_multiset(),
        final(v)@.len() == old(v)@.len(),
        forall|i: int, j: int|
            0 <= i <= j < final(v)@.len() ==> (#[trigger] final(v)@[i]).free_frames() <= (
            #[trigger] final(v)@[j]).free_frames(),
{
    v.sort_unstable_by_key(free_key);
}

/// A manager of physical frames: one bitmap per usable region of memory.
pub struct PhysicalMemoryManager {
    bitmaps: Vec<BitmapEntry>,
}

impl PhysicalMemoryManager {
    /// The regions, in their order.
    pub closed spec fn regions(&self) -> Seq<BitmapEntry> {
        self.bitmaps@
    }

    /// Every region is consistent.
    pub open spec fn wf(&self) -> bool {
        forall|i: int| 0 <= i < self.regions().len() ==> (#[trigger] self.regions()[i]).wf()
    }

    /// Manages the regions `bitmaps`, ordered by their free counts.
    pub fn new(bitmaps: Vec<BitmapEntry>) -> (r: Self)
        requires
            forall|i: int| 0 <= i < bitmaps@.len() ==> (#[trigger] bitmaps@[i]).wf(),
        ensures
            r.wf(),
            r.regions().to_multiset() == bitmaps@.to_multiset(),
            r.regions().len() == bitmaps@.len(),
            forall|i: int, j: int|
                0 <= i <= j < r.regions().len() ==> (#[trigger] r.regions()[i]).free_frames() <= (
                #[trigger] r.regions()[j]).free_frames(),
    {
        let ghost before = bitmaps@;
        let mut v = bitmaps;
        sort_by_free(&mut v);
        proof {
            v@.to_multiset_ensures();
            before.to_multiset_ensures();
            assert forall|i: int| 0 <= i < v@.len() implies (#[trigger] v@[i]).wf() by {
                assert(v@.contains(v@[i]));
                assert(v@.to_multiset().count(v@[i]) > 0);
                assert(before.contains(v@[i]));
            }
        }
        PhysicalMemoryManager { bitmaps: v }
    }

    /// The number of regions.
    pub fn len(&self) -> (r: usize)
        ensures
            r == self.regions().len(),
    {
        self.bitmaps.len()
    }

    /// The start of region `i`, which must exist.
    pub fn region_start(&self, i: usize) -> (r: u64)
        requires
            i < self.regions().len(),
        ensures
            r == self.regions()[i as int].start_addr(),
    {
        self.bitmaps[i].start.as_u64()
    }

    /// The free count of region `i`, which must exist.
    pub fn region_free(&self, i: usize) -> (r: u64)
        requires
            i < self.regions().len(),
        ensures
            r == self.regions()[i as int].free_frames(),
    {
        self.bitmaps[i].free
    }

    /// Hands out a frame of size `S`: from the first region, in order, that is `eligible` and
    /// whose bitmap search (`Bitmap::allocate`, aligned to the region's alignment) finds room;
    /// `OutOfMemory`, with nothing changed, when none does.
    pub fn allocate_fragment<S: FragmentSize>(&mut self) -> (r: Result<Frame<S>, MemError>)
        requires
            old(self).wf(),
        ensures
            final(self).wf(),
            frame_served::<S>(old(self).regions(), final(self).regions(), r),
    {
        proof {
            S::lemma_size();
            crate::arch::lemma_shift_constants();
        }
        let ghost old_regions = self.regions();
        let n = self.bitmaps.len();
        let bits = S::bits();
        let bit_align = align_in_bits(S::alignment());
        let mut i: usize = 0;
        while i < n
            invariant
                i <= n,
                n == self.regions().len(),
                n == old_regions.len(),
                old_regions == old(self).regions(),
                self.wf(),
                forall|j: int| 0 <= j < n ==> same_region(#[trigger] self.regions()[j], old_regions[j]),
                bits == S::spec_size() / SMALL_SIZE,
                bit_align@ == S::spec_size() / SMALL_SIZE,
                is_page_size(S::spec_size()),
                region_pick(old_regions, S::spec_size(), 0) == region_pick(old_regions, S::spec_size(), i as int),
            decreases n - i,
        {
            assert(same_region(self.regions()[i as int], old_regions[i as int]));
            if self.bitmaps[i].bit_alignment.as_u64() >= bit_align.as_u64() && self.bitmaps[i].free >= bits {
                let ghost before = self.regions();
                let mut entry = self.bitmaps.remove(i);
                let ghost b0 = entry;
                let alignment = entry.bit_alignment;
                match entry.bitmap.allocate(bits, alignment) {
                    Some(p) => {
                        entry.free = entry.free - bits;
                        proof {
                            lemma_frame_from_region(b0, p.spec_index(), S::spec_size());
                        }
                        let addr = entry.start.as_u64() + p.bit_index() * SMALL_SIZE;
                        self.bitmaps.insert(i, entry);
                        proof {
                            assert(same_region(b0, old_regions[i as int]));
                            assert(taken(old_regions[i as int], self.regions()[i as int], p.spec_index(), bits as int));
                            assert(eligible(old_regions[i as int], S::spec_size()));
                            assert forall|j: int| 0 <= j < n && j != i implies same_region(
                                #[trigger] self.regions()[j],
                                old_regions[j],
                            ) by {
                                assert(self.regions()[j] == before[j]);
                            }
                            assert(forall|j: int| 0 <= j < n ==> (#[trigger] self.regions()[j]).wf());
                        }
                        return Ok(Frame::new(PhysAddr::new(addr)));
                    },
                    None => {
                        self.bitmaps.insert(i, entry);
                        proof {
                            assert forall|j: int| 0 <= j < n implies same_region(
                                #[trigger] self.regions()[j],
                                old_regions[j],
                            ) by {
                                if j != i {
                                    assert(self.regions()[j] == before[j]);
                                }
                            }
                            assert(forall|j: int| 0 <= j < n ==> (#[trigger] self.regions()[j]).wf());
                        }
                    },
                }
            }
            i += 1;
        }
        Err(MemError::OutOfMemory)
    }

    /// Writes `value` into the `n` frames from bit `p` of region `i`, and moves its free count
    /// down by `n` when setting, up by `n` when clearing.
    fn write_region(&mut self, i: usize, p: BitPtr, n: u64, value: bool)
        requires
            old(self).wf(),
            i < old(self).regions().len(),
            p.spec_index() + n <= old(self).regions()[i as int].n_frames(),
            value ==> old(self).regions()[i as int].free_frames() >= n,
            !value ==> old(self).regions()[i as int].free_frames() + n <= u64::MAX,
        ensures
            final(self).wf(),
            final(self).regions().len() == old(self).regions().len(),
            written(
                old(self).regions()[i as int],
                final(self).regions()[i as int],
                p.spec_index(),
                n as int,
                value,
                if value {
                    -n
                } else {
                    n as int
                },
            ),
            forall|j: int|
                0 <= j < old(self).regions().len() && j != i ==> same_region(
                    #[trigger] final(self).regions()[j],
                    old(self).regions()[j],
                ),
    {
        let ghost before = self.regions();
        let mut entry = self.bitmaps.remove(i);
        if value {
            entry.bitmap.set(p, n);
            entry.free = entry.free - n;
        } else {
            entry.bitmap.clear(p, n);
            entry.free = entry.free + n;
        }
        self.bitmaps.insert(i, entry);
        proof {
            assert forall|j: int| 0 <= j < before.len() && j != i implies same_region(
                #[trigger] self.regions()[j],
                before[j],
            ) by {
                assert(self.regions()[j] == before[j]);
            }
            assert forall|j: int| 0 <= j < before.len() implies (#[trigger] self.regions()[j]).wf() by {
                if j != i {
                    assert(self.regions()[j] == before[j]);
                }
            }
        }
    }

    /// Takes back the frame `frame`: clears its bits in the first region that holds its start,
    /// and counts them as free again. That region must hold the whole frame, as the original
    /// panics when no region holds its start, and the free count must not overflow.
    pub fn deallocate_fragment<S: FragmentSize>(&mut self, frame: Frame<S>)
        requires
            old(self).wf(),
            match first_region(old(self).regions(), frame@ as int, frame@ + 1, 0) {
                Some(i) => frame@ + S::spec_size() <= old(self).regions()[i].end_addr()
                    && old(self).regions()[i].free_frames() + S::spec_size() / SMALL_SIZE <= u64::MAX,
                None => false,
            },
        ensures
            final(self).wf(),
            frame_returned::<S>(old(self).regions(), final(self).regions(), frame),
    {
        proof {
            S::lemma_size();
            lemma_first_region(self.regions(), frame@ as int, frame@ + 1, 0);
        }
        let i = self.bitmap_containing(frame).unwrap();
        let start = frame.start_address();
        let region_start = self.bitmaps[i].start;
        proof {
            let b = self.regions()[i as int];
            assert(b.wf());
            crate::primitives::lemma_size_divides(frame@ as int, S::spec_size(), SMALL_SIZE);
            vstd::arithmetic::div_mod::lemma_sub_mod_noop(frame@ as int, b.start_addr() as int, 4096);
            vstd::arithmetic::div_mod::lemma_fundamental_div_mod(frame@ - b.start_addr(), 4096);
            vstd::arithmetic::div_mod::lemma_fundamental_div_mod(S::spec_size() as int, 4096);
        }
        let p = address_as_bit_index(start, region_start).unwrap();
        self.write_region(i, p, S::bits(), false);
    }

    /// Marks the frames of `range` allocated in the first region that holds it, and counts
    /// them as no longer free. Such a region must exist, as the original panics otherwise; the
    /// range must start a whole number of frames from the region's start, and the region must
    /// count at least as many free frames as the range covers.
    pub fn mark_allocated(&mut self, range: MemoryRange<PhysAddr>)
        requires
            old(self).wf(),
            range.spec_start() < range.spec_end(),
            match first_region(old(self).regions(), range.spec_start() as int, range.spec_end() as int, 0) {
                Some(i) => (range.spec_start() - old(self).regions()[i].start_addr()) % SMALL_SIZE as int == 0
                    && old(self).regions()[i].free_frames() >= pages_for((range.spec_end() - range.spec_start()) as u64),
                None => false,
            },
        ensures
            final(self).wf(),
            final(self).regions().len() == old(self).regions().len(),
            first_region(old(self).regions(), range.spec_start() as int, range.spec_end() as int, 0) matches Some(i)
                && written(
                old(self).regions()[i],
                final(self).regions()[i],
                (range.spec_start() - old(self).regions()[i].start_addr()) / SMALL_SIZE as int,
                pages_for((range.spec_end() - range.spec_start()) as u64),
                true,
                -pages_for((range.spec_end() - range.spec_start()) as u64),
            ) && forall|j: int|
                0 <= j < old(self).regions().len() && j != i ==> same_region(
                    #[trigger] final(self).regions()[j],
                    old(self).regions()[j],
                ),
    {
        let i = self.bitmap_for_range(range).unwrap();
        let n = bytes_to_pages(range.size());
        proof {
            self.lemma_range_in_region(i as int, range.spec_start(), range.spec_end());
        }
        let region_start = self.bitmaps[i].start;
        let p = address_as_bit_index(range.start(), region_start).unwrap();
        self.write_region(i, p, n, true);
    }

    /// Marks the frames of `range` free in the first region that holds it, and counts them as
    /// free again. Such a region must exist, as the original panics otherwise; the range must
    /// start a whole number of frames from the region's start, and the free count must not
    /// overflow.
    pub fn mark_unallocated(&mut self, range: MemoryRange<PhysAddr>)
        requires
            old(self).wf(),
            range.spec_start() < range.spec_end(),
            match first_region(old(self).regions(), range.spec_start() as int, range.spec_end() as int, 0) {
                Some(i) => (range.spec_start() - old(self).regions()[i].start_addr()) % SMALL_SIZE as int == 0
                    && old(self).regions()[i].free_frames() + pages_for((range.spec_end() - range.spec_start()) as u64) <= u64::MAX,
                None => false,
            },
        ensures
            final(self).wf(),
            final(self).regions().len() == old(self).regions().len(),
            first_region(old(self).regions(), range.spec_start() as int, range.spec_end() as int, 0) matches Some(i)
                && written(
                old(self).regions()[i],
                final(self).regions()[i],
                (range.spec_start() - old(self).regions()[i].start_addr()) / SMALL_SIZE as int,
                pages_for((range.spec_end() - range.spec_start()) as u64),
                false,
                pages_for((range.spec_end() - range.spec_start()) as u64),
            ) && forall|j: int|
                0 <= j < old(self).regions().len() && j != i ==> same_region(
                    #[trigger] final(self).regions()[j],
                    old(self).regions()[j],
                ),
    {
        let i = self.bitmap_for_range(range).unwrap();
        let n = bytes_to_pages(range.size());
        proof {
            self.lemma_range_in_region(i as int, range.spec_start(), range.spec_end());
        }
        let region_start = self.bitmaps[i].start;
        let p = address_as_bit_index(range.start(), region_start).unwrap();
        self.write_region(i, p, n, false);
    }

    /// A range held by region `i`, starting a whole number of frames from its start, covers
    /// frames inside it.
    proof fn lemma_range_in_region(&self, i: int, lo: u64, hi: u64)
        requires
            self.wf(),
            lo < hi,
            first_region(self.regions(), lo as int, hi as int, 0) == Some(i),
            (lo - self.regions()[i].start_addr()) % SMALL_SIZE as int == 0,
        ensures
            0 <= i < self.regions().len(),
            lo >= self.regions()[i].start_addr(),
            (lo - self.regions()[i].start_addr()) / SMALL_SIZE as int + pages_for((hi - lo) as u64)
                <= self.regions()[i].n_frames(),
    {
        lemma_first_region(self.regions(), lo as int, hi as int, 0);
        let b = self.regions()[i];
        let st = b.start_addr() as int;
        let nf = b.n_frames() as int;
        let d = lo - st;
        vstd::arithmetic::div_mod::lemma_fundamental_div_mod(d, 4096);
        let q = d / 4096;
        let size = hi - lo;
        assert(size <= (nf - q) * 4096);
        let m = nf - q;
        assert((size + 4095) / 4096 <= m) by {
            vstd::arithmetic::div_mod::lemma_div_is_ordered(size + 4095, m * 4096 + 4095, 4096);
            vstd::arithmetic::div_mod::lemma_fundamental_div_mod_converse(m * 4096 + 4095, 4096, m, 4095);
        }
    }

    /// The index of the first region that holds the addresses `[lo, hi)`, or `None`.
    fn first_region_for(&self, lo: u64, hi: u64) -> (r: Option<usize>)
        requires
            self.wf(),
        ensures
            r matches Some(i) ==> first_region(self.regions(), lo as int, hi as int, 0) == Some(i as int),
            r is None ==> first_region(self.regions(), lo as int, hi as int, 0) is None,
    {
        let n = self.bitmaps.len();
        let mut i: usize = 0;
        while i < n
            invariant
                i <= n,
                n == self.regions().len(),
                self.wf(),
                first_region(self.regions(), lo as int, hi as int, 0) == first_region(
                    self.regions(),
                    lo as int,
                    hi as int,
                    i as int,
                ),
            decreases n - i,
        {
            let b = &self.bitmaps[i];
            assert(b.wf());
            let end = b.end();
            if b.start.as_u64() <= lo && hi <= end {
                return Some(i);
            }
            i += 1;
        }
        None
    }

    /// The index of the first region that holds the whole range `range`, or `None`.
    pub fn bitmap_for_range(&self, range: MemoryRange<PhysAddr>) -> (r: Option<usize>)
        requires
            self.wf(),
        ensures
            r matches Some(i) ==> first_region(self.regions(), range.spec_start() as int, range.spec_end() as int, 0) == Some(i as int),
            r is None ==> first_region(self.regions(), range.spec_start() as int, range.spec_end() as int, 0) is None,
    {
        self.first_region_for(range.start().as_u64(), range.end().as_u64())
    }

    /// The index of the first region that holds the frame `frame`, or `None`.
    pub fn bitmap_containing<S: FragmentSize>(&self, frame: Frame<S>) -> (r: Option<usize>)
        requires
            self.wf(),
        ensures
            r matches Some(i) ==> first_region(self.regions(), frame@ as int, frame@ + 1, 0) == Some(i as int),
            r is None ==> first_region(self.regions(), frame@ as int, frame@ + 1, 0) is None,
    {
        let a = frame.start_address().as_u64();
        self.first_region_for(a, a + 1)
    }
}

/// A manager of memory fragments of size `S`: it hands them out and takes them back.
pub trait FragmentManager<T, S: FragmentSize> {
    /// The manager is in a state where it can serve requests.
    spec fn manager_ok(&self) -> bool;

    /// The manager can take `fragment` back.
    spec fn may_take_back(&self, fragment: T) -> bool;

    /// `after`, with the result `r`, is what handing out a fragment makes of the manager.
    spec fn hands_out(&self, after: &Self, r: Result<T, MemError>) -> bool;

    /// `after` is what taking `fragment` back makes of the manager.
    spec fn takes_back(&self, after: &Self, fragment: T) -> bool;

    /// Hands out a fragment, or fails with an error.
    fn allocate_fragment(&mut self) -> (r: Result<T, MemError>)
        requires
            old(self).manager_ok(),
        ensures
            final(self).manager_ok(),
            old(self).hands_out(final(self), r),
    ;

    /// Takes the fragment `fragment` back.
    fn deallocate_fragment(&mut self, fragment: T)
        requires
            old(self).manager_ok(),
            old(self).may_take_back(fragment),
        ensures
            final(self).manager_ok(),
            old(self).takes_back(final(self), fragment),
    ;
}

/// A manager of frames of every size.
pub trait FullManager:
    FragmentManager<Frame<crate::primitives::Small>, crate::primitives::Small> +
    FragmentManager<Frame<crate::primitives::Medium>, crate::primitives::Medium> +
    FragmentManager<Frame<crate::primitives::Large>, crate::primitives::Large> {
    /// Hands out a small frame.
    fn allocate_small(&mut self) -> (r: Result<Frame<crate::primitives::Small>, MemError>)
        requires
            FragmentManager::<Frame<crate::primitives::Small>, crate::primitives::Small>::manager_ok(old(self)),
        ensures
            FragmentManager::<Frame<crate::primitives::Small>, crate::primitives::Small>::manager_ok(final(self)),
            FragmentManager::<Frame<crate::primitives::Small>, crate::primitives::Small>::hands_out(old(self), final(self), r),
    {
        FragmentManager::<Frame<crate::primitives::Small>, crate::primitives::Small>::allocate_fragment(self)
    }

    /// Hands out a medium frame.
    fn allocate_medium(&mut self) -> (r: Result<Frame<crate::primitives::Medium>, MemError>)
        requires
            FragmentManager::<Frame<crate::primitives::Medium>, crate::primitives::Medium>::manager_ok(old(self)),
        ensures
            FragmentManager::<Frame<crate::primitives::Medium>, crate::primitives::Medium>::manager_ok(final(self)),
            FragmentManager::<Frame<crate::primitives::Medium>, crate::primitives::Medium>::hands_out(old(self), final(self), r),
    {
        FragmentManager::<Frame<crate::primitives::Medium>, crate::primitives::Medium>::allocate_fragment(self)
    }

    /// Hands out a large frame.
    fn allocate_large(&mut self) -> (r: Result<Frame<crate::primitives::Large>, MemError>)
        requires
            FragmentManager::<Frame<crate::primitives::Large>, crate::primitives::Large>::manager_ok(old(self)),
        ensures
            FragmentManager::<Frame<crate::primitives::Large>, crate::primitives::Large>::manager_ok(final(self)),
            FragmentManager::<Frame<crate::primitives::Large>, crate::primitives::Large>::hands_out(old(self), final(self), r),
    {
        FragmentManager::<Frame<crate::primitives::Large>, crate::primitives::Large>::allocate_fragment(self)
    }
}

impl<S: FragmentSize> FragmentManager<Frame<S>, S> for PhysicalMemoryManager {
    open spec fn manager_ok(&self) -> bool {
        self.wf()
    }

    open spec fn may_take_back(&self, frame: Frame<S>) -> bool {
        match first_region(self.regions(), frame@ as int, frame@ + 1, 0) {
            Some(i) => frame@ + S::spec_size() <= self.regions()[i].end_addr()
                && self.regions()[i].free_frames() + S::spec_size() / SMALL_SIZE <= u64::MAX,
            None => false,
        }
    }

    open spec fn hands_out(&self, after: &Self, r: Result<Frame<S>, MemError>) -> bool {
        frame_served::<S>(self.regions(), after.regions(), r)
    }

    open spec fn takes_back(&self, after: &Self, frame: Frame<S>) -> bool {
        frame_returned::<S>(self.regions(), after.regions(), frame)
    }

    fn allocate_fragment(&mut self) -> (r: Result<Frame<S>, MemError>) {
        PhysicalMemoryManager::allocate_fragment::<S>(self)
    }

    fn deallocate_fragment(&mut self, frame: Frame<S>) {
        PhysicalMemoryManager::deallocate_fragment::<S>(self, frame)
    }
}

impl FullManager for PhysicalMemoryManager {
}

/// Two allocations from one bitmap never overlap: when the bits `[i1, i1 + n1)` were set to give
/// `mid`, and the bits `[i2, i2 + n2)` are a free, aligned place in `mid`, the two ranges share
/// no bit.
pub proof fn lemma_allocations_disjoint(
    before: Seq<u64>,
    mid: Seq<u64>,
    i1: int,
    n1: int,
    n_total: u64,
    i2: int,
    n2: int,
    a2: int,
)
    requires
        range_written(before, mid, i1, i1 + n1, true),
        fits_at(mid, n_total, i2, n2, a2),
        0 <= i1,
        0 <= i2,
        n1 > 0,
        n2 > 0,
        i1 + n1 <= before.len() * 64,
    ensures
        i1 + n1 <= i2 || i2 + n2 <= i1,
{
    if !(i1 + n1 <= i2 || i2 + n2 <= i1) {
        let b = if i1 > i2 {
            i1
        } else {
            i2
        };
        let e = b / 64;
        let j = (b % 64) as u64;
        assert(b == e * 64 + j);
        assert(0 <= e < before.len());
        assert(crate::bits::bit_at(mid[e], j));
        assert(crate::bitmap::any_set_in(mid, i2, i2 + n2));
    }
}

/// Freeing one allocation keeps another: when the bits `[i1, i1 + n1)` are cleared in `mid` to
/// give `after`, every bit of a range `[i2, i2 + n2)` apart from them that was set stays set.
pub proof fn lemma_free_keeps_others(
    mid: Seq<u64>,
    after: Seq<u64>,
    i1: int,
    n1: int,
    i2: int,
    n2: int,
)
    requires
        range_written(mid, after, i1, i1 + n1, false),
        crate::bitmap::all_set_in(mid, i2, i2 + n2),
        i1 + n1 <= i2 || i2 + n2 <= i1,
    ensures
        crate::bitmap::all_set_in(after, i2, i2 + n2),
{
    assert forall|e: int, j: u64|
        0 <= e < after.len() && j < 64 && i2 <= e * 64 + j < i2 + n2 implies #[trigger] crate::bits::bit_at(
        after[e],
        j,
    ) by {
        assert(crate::bits::bit_at(mid[e], j));
    }
}

/// Freeing what was just allocated gives back the bitmap as it was: when the bits `[idx, idx+n)`
/// were clear in `before`, were set to give `mid`, and were cleared in `mid` to give `after`,
/// every bit of `after` is that of `before`.
pub proof fn lemma_free_after_allocate_restores(
    before: Seq<u64>,
    mid: Seq<u64>,
    after: Seq<u64>,
    n_total: u64,
    idx: int,
    n: int,
    a: int,
)
    requires
        fits_at(before, n_total, idx, n, a),
        range_written(before, mid, idx, idx + n, true),
        range_written(mid, after, idx, idx + n, false),
    ensures
        after.len() == before.len(),
        forall|e: int, j: u64|
            0 <= e < before.len() && j < 64 ==> #[trigger] crate::bits::bit_at(after[e], j)
                == crate::bits::bit_at(before[e], j),
{
    assert forall|e: int, j: u64| 0 <= e < before.len() && j < 64 implies #[trigger] crate::bits::bit_at(
        after[e],
        j,
    ) == crate::bits::bit_at(before[e], j) by {
        assert(crate::bits::bit_at(after[e], j) == crate::bits::bit_at(after[e], j));
        assert(crate::bits::bit_at(mid[e], j) == crate::bits::bit_at(mid[e], j));
        if idx <= e * 64 + j < idx + n {
            if crate::bits::bit_at(before[e], j) {
                assert(crate::bitmap::any_set_in(before, idx, idx + n));
            }
        }
    }
}

} // verus!
