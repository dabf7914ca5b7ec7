//! A state machine that scans an allocation bitmap entry by entry for a run of pages that
//! satisfies a size and alignment request.
use vstd::prelude::*;
use crate::align::{Alignment, is_pow2};
use crate::bitmap::{any_set_in, Bitmap, range_written};
use crate::addr::VirtAddr;
use crate::bitptr::{BitPtr, BITPTR_MAX_ENTRY};
use crate::arch::{TABLE_SIZE, VIRT_HIGH_BITS, VIRT_SIGN_BIT};
use crate::bits::{bit_at, is_mask_of, lemma_bit_ops, lemma_run_mask, lemma_shifted_run_mask, lemma_shl_bits, lemma_zero_bits, run_mask_spec};

verus! {

/// The number of bytes one bitmap entry stands for.
pub const ENTRY_SIZE: u64 = 0x4_0000u64;

/// The number of pages needed to cover `len` bytes.
pub open spec fn pages_for(len: u64) -> int {
    (len as int + TABLE_SIZE - 1) / (TABLE_SIZE as int)
}

/// Calculates how many pages are needed to cover `len` bytes.
pub fn bytes_to_pages(len: u64) -> (r: u64)
    ensures
        r == pages_for(len),
{
    len / TABLE_SIZE + if len % TABLE_SIZE == 0 {
        0
    } else {
        1
    }
}

/// Creates a bitmask of the `len` lowest bits, or `u64::MAX` when `len` is 64 or more.
pub fn range_mask(len: u64) -> (r: u64)
    ensures
        r == run_mask_spec(len),
        is_mask_of(r, 0, len as int),
{
    proof {
        lemma_run_mask(len);
    }
    if len >= 64 {
        u64::MAX
    } else {
        assert(1u64 << len >= 1 && (len == 0 ==> ((1u64 << len) - 1) as u64 == 0)) by (bit_vector)
            requires
                len < 64,
        ;
        (1u64 << len) - 1
    }
}

/// Repeats the low `n_bits` bits of `mask` to fill a word; `n_bits` must be a power of two
/// of at most 64.
pub fn rep_mask(mask: u64, n_bits: u64) -> (r: u64)
    requires
        n_bits <= 64,
        crate::align::is_pow2(n_bits),
    ensures
        forall|j: u64| j < 64 ==> #[trigger] bit_at(r, j) == bit_at(mask, j % n_bits),
{
    if n_bits == 64 {
        return mask;
    }
    proof {
        let kk = choose|kk: u64| kk < 64 && n_bits == #[trigger] (1u64 << kk);
        crate::align::lemma_pow2_mask(0, kk);
    }
    let low = range_mask(n_bits);
    let m = mask & low;
    proof {
        lemma_bit_ops(mask, low);
    }
    let reps = 64 / n_bits;
    let mut result: u64 = 0;
    let mut i: u64 = 0;
    proof {
        crate::bits::lemma_zero_and_full();
        let kk = choose|kk: u64| kk < 64 && n_bits == #[trigger] (1u64 << kk);
        crate::align::lemma_pow2_and_64(kk);
        vstd::arithmetic::div_mod::lemma_fundamental_div_mod(64, n_bits as int);
        assert(64u64 % n_bits == 0);
        vstd::arithmetic::mul::lemma_mul_is_commutative(reps as int, n_bits as int);
    }
    assert(reps * n_bits == 64);
    while i < reps
        invariant
            0 < n_bits < 64,
            reps == 64u64 / n_bits,
            reps * n_bits == 64,
            i <= reps,
            forall|j: u64| j < 64 ==> (#[trigger] bit_at(m, j) <==> (j < n_bits && bit_at(mask, j))),
            forall|j: u64|
                j < 64 ==> #[trigger] bit_at(result, j) == (j < i * n_bits && bit_at(mask, j % n_bits)),
        decreases reps - i,
    {
        assert(i * n_bits < 64) by (nonlinear_arith)
            requires
                i < reps,
                reps * n_bits == 64,
                n_bits > 0,
        ;
        let s = i * n_bits;
        let shifted = m << s;
        proof {
            lemma_shl_bits(m, s);
            lemma_bit_ops(result, shifted);
            assert forall|j: u64| j < 64 implies #[trigger] bit_at(result | shifted, j) == (j < (i
                + 1) * n_bits && bit_at(mask, j % n_bits)) by {
                assert((i + 1) * n_bits == s + n_bits) by (nonlinear_arith)
                    requires
                        s == i * n_bits,
                ;
                if s <= j < s + n_bits {
                    vstd::arithmetic::div_mod::lemma_fundamental_div_mod_converse(
                        j as int,
                        n_bits as int,
                        i as int,
                        j - s,
                    );
                }
            }
        }
        result = result | shifted;
        i = i + 1;
    }
    result
}


/// `a / b` rounded up.
pub open spec fn ceil_div(a: int, b: int) -> int {
    (a + b - 1) / b
}

/// The size of an allocation request in pages, and its alignment in bytes, pages and
/// bitmap entries.
#[derive(Clone, Copy, PartialEq, Eq, Debug)]
pub struct AllocationInfo {
    /// The total size of the request in bytes.
    pub size: u64,
    /// The alignment of the request in bytes.
    pub align: u64,
    /// The alignment in pages.
    pub page_align: u64,
    /// The alignment in bitmap entries.
    pub entry_align: u64,
    /// The number of pages the request needs.
    pub needed_pages: u64,
}

/// Rounding a division up adds one exactly when there is a remainder.
pub proof fn lemma_ceil_div_parts(a: int, d: int)
    requires
        a >= 0,
        d > 0,
    ensures
        ceil_div(a, d) == a / d + (if a % d == 0 { 0int } else { 1int }),
        a == (a / d) * d + a % d,
        0 <= a % d < d,
{
    vstd::arithmetic::div_mod::lemma_fundamental_div_mod(a, d);
    let q = a / d;
    let r = a % d;
    assert(a == q * d + r) by {
        vstd::arithmetic::mul::lemma_mul_is_commutative(q, d);
    }
    if r == 0 {
        vstd::arithmetic::div_mod::lemma_fundamental_div_mod_converse(a + d - 1, d, q, d - 1);
    } else {
        assert(a + d - 1 == (q + 1) * d + (r - 1)) by {
            vstd::arithmetic::mul::lemma_mul_is_distributive_add_other_way(d, q, 1);
        }
        vstd::arithmetic::div_mod::lemma_fundamental_div_mod_converse(a + d - 1, d, q + 1, r - 1);
    }
}

/// `ceil(2^k / 2^s)` is a power of two, for the two divisors the allocation info uses.
proof fn lemma_ceil_pow2(k: u64, s: u64)
    requires
        k < 64,
        s == 12 || s == 6,
    ensures
        ({
            let a = 1u64 << k;
            let d = 1u64 << s;
            &&& d >= 1
            &&& a / d + (if a % d == 0 { 0u64 } else { 1u64 }) == ceil_div(a as int, d as int)
            &&& is_pow2((a / d + (if a % d == 0 { 0u64 } else { 1u64 })) as u64)
        }),
{
    let a = 1u64 << k;
    let d = 1u64 << s;
    crate::align::lemma_pow2_mask(0, s);
    lemma_ceil_div_parts(a as int, d as int);
    if k >= s {
        if s == 12 {
            assert((1u64 << k) % 4096 == 0 && (1u64 << k) / 4096 == 1u64 << ((k - 12) as u64)) by (bit_vector)
                requires
                    12 <= k < 64,
            ;
            crate::arch::lemma_shift_constants();
        } else {
            assert((1u64 << k) % 64 == 0 && (1u64 << k) / 64 == 1u64 << ((k - 6) as u64)) by (bit_vector)
                requires
                    6 <= k < 64,
            ;
            crate::arch::lemma_shift_constants();
        }
        let e = (k - s) as u64;
        assert(a / d == 1u64 << e);
        assert(is_pow2((a / d) as u64));
    } else {
        assert((1u64 << k) < (1u64 << s) && (1u64 << k) > 0) by (bit_vector)
            requires
                k < s < 64,
        ;
        vstd::arithmetic::div_mod::lemma_basic_div(a as int, d as int);
        vstd::arithmetic::div_mod::lemma_small_mod(a as nat, d as nat);
        assert(a / d == 0);
        assert(a % d == a);
        crate::arch::lemma_shift_constants();
        assert(is_pow2(1));
    }
}

impl AllocationInfo {
    /// Everything but the size follows from a power-of-two alignment.
    pub open spec fn wf(self) -> bool {
        &&& is_pow2(self.align)
        &&& is_pow2(self.page_align)
        &&& is_pow2(self.entry_align)
        &&& self.page_align == ceil_div(self.align as int, TABLE_SIZE as int)
        &&& self.entry_align == ceil_div(self.page_align as int, 64)
        &&& self.needed_pages == pages_for(self.size)
    }

    /// Describes a request for `size` bytes aligned to `align`.
    pub fn new(size: u64, align: Alignment) -> (r: AllocationInfo)
        ensures
            r.wf(),
            r.size == size,
            r.align == align@,
    {
        let a = align.as_u64();
        let k = align.log2();
        proof {
            crate::arch::lemma_shift_constants();
            lemma_ceil_pow2(k, 12);
        }
        let page_align = a / TABLE_SIZE + if a % TABLE_SIZE == 0 {
            0
        } else {
            1
        };
        proof {
            let pk = choose|pk: u64| pk < 64 && page_align == #[trigger] (1u64 << pk);
            crate::arch::lemma_shift_constants();
            lemma_ceil_pow2(pk, 6);
        }
        let entry_align = page_align / 64 + if page_align % 64 == 0 {
            0
        } else {
            1
        };
        let needed_pages = bytes_to_pages(size);
        AllocationInfo { size, align: a, page_align, entry_align, needed_pages }
    }
}


/// Where the scan of the bitmap stands.
#[derive(Clone, Copy, PartialEq, Eq, Debug)]
pub enum ScanState {
    /// Looking for a free range that satisfies the request.
    Scanning,
    /// Claiming a range that spans several entries: `start` is its first page, and
    /// `remaining_size` the bytes still to be found in the entries that follow.
    Allocating { start: BitPtr, remaining_size: u64 },
}

/// How far the scan moves after an entry that did not complete the request.
#[derive(Clone, Copy, PartialEq, Eq, Debug)]
pub enum SkipStrategy {
    /// Check the next entry.
    Next,
    /// Skip to the next entry that is aligned for the request.
    NextAligned,
    /// Skip a given number of entries.
    N(u64),
}

impl ScanState {
    /// `None` while scanning; the first page and the remaining bytes while claiming a range.
    pub open spec fn view(self) -> Option<(int, u64)> {
        match self {
            ScanState::Scanning => None,
            ScanState::Allocating { start, remaining_size } => Some((start.spec_index(), remaining_size)),
        }
    }
}

/// The result of a step, with a found range given by its first page.
pub open spec fn result_view(r: Result<BitPtr, SkipStrategy>) -> Result<int, SkipStrategy> {
    match r {
        Ok(p) => Ok(p.spec_index()),
        Err(s) => Err(s),
    }
}

/// Every page `lo <= j < hi` of the entry `e` (that lies inside the entry) is free.
pub open spec fn all_free(e: u64, lo: int, hi: int) -> bool {
    forall|j: u64| lo <= j < hi && j < 64 ==> !#[trigger] bit_at(e, j)
}

/// The run of `n` pages at offset `b` of the entry `e` is usable: all of its pages that lie
/// in the entry are free.
pub open spec fn slot_ok(e: u64, b: int, n: int) -> bool {
    all_free(e, b, b + n)
}

/// `b` is the first offset of the entry `e` that is a multiple of `pa` and usable for `n` pages.
pub open spec fn is_first_slot(e: u64, pa: int, n: int, b: int) -> bool {
    &&& 0 <= b < 64
    &&& b % pa == 0
    &&& slot_ok(e, b, n)
    &&& forall|c: int| 0 <= c < b && c % pa == 0 ==> !#[trigger] slot_ok(e, c, n)
}

/// Some offset of the entry `e` that is a multiple of `pa` is usable for `n` pages.
pub open spec fn has_slot(e: u64, pa: int, n: int) -> bool {
    exists|b: int| 0 <= b < 64 && b % pa == 0 && #[trigger] slot_ok(e, b, n)
}

/// The first usable offset, when there is one.
pub open spec fn first_slot(e: u64, pa: int, n: int) -> int {
    choose|b: int| is_first_slot(e, pa, n, b)
}

/// There is only one first usable offset.
proof fn lemma_first_slot(e: u64, pa: int, n: int, b: int)
    requires
        is_first_slot(e, pa, n, b),
    ensures
        first_slot(e, pa, n) == b,
        has_slot(e, pa, n),
{
    let c = first_slot(e, pa, n);
    assert(is_first_slot(e, pa, n, c));
    if c < b {
        assert(!slot_ok(e, c, n));
    } else if b < c {
        assert(!slot_ok(e, b, n));
    }
}

/// What continuing a multi-entry range with the entry `e` gives: the result, and the
/// state afterwards.
pub open spec fn handle_spec(e: u64, start: int, remaining_size: u64) -> (Result<int, SkipStrategy>, Option<(int, u64)>) {
    if remaining_size > ENTRY_SIZE {
        if e != 0 {
            (Err(SkipStrategy::NextAligned), None)
        } else {
            (Err(SkipStrategy::Next), Some((start, (remaining_size - ENTRY_SIZE) as u64)))
        }
    } else if all_free(e, 0, pages_for(remaining_size)) {
        (Ok(start), Some((start, remaining_size)))
    } else {
        (Err(SkipStrategy::NextAligned), None)
    }
}

/// What scanning the entry `e` at index `i` gives: the result, and the state afterwards.
pub open spec fn scan_spec(e: u64, info: AllocationInfo, i: int) -> (Result<int, SkipStrategy>, Option<(int, u64)>) {
    let pa = info.page_align as int;
    let n = info.needed_pages as int;
    if e == u64::MAX {
        (Err(SkipStrategy::NextAligned), None)
    } else if info.size > ENTRY_SIZE && info.align >= TABLE_SIZE {
        if e != 0 {
            (Err(SkipStrategy::NextAligned), None)
        } else {
            (Err(SkipStrategy::Next), Some((i * 64, (info.size - ENTRY_SIZE) as u64)))
        }
    } else if has_slot(e, pa, n) {
        let b = first_slot(e, pa, n);
        if b + n > 64 {
            (Err(SkipStrategy::Next), Some((i * 64 + b, (info.size - (64 - b) * TABLE_SIZE) as u64)))
        } else {
            (Ok(i * 64 + b), None)
        }
    } else {
        (Err(SkipStrategy::NextAligned), None)
    }
}

/// What one step on the entry `e` at index `i` gives, in state `st`, for a bitmap with
/// `n_bits` bits in use: the result, and the state afterwards. A found range that would
/// reach past the bits in use is refused like an occupied entry.
pub open spec fn step_spec(e: u64, n_bits: u64, info: AllocationInfo, st: Option<(int, u64)>, i: int) -> (Result<int, SkipStrategy>, Option<(int, u64)>) {
    let (r, st2) = match st {
        None => scan_spec(e, info, i),
        Some((start, rem)) => handle_spec(e, start, rem),
    };
    match r {
        Ok(b) => if b + info.needed_pages <= n_bits {
            (Ok(b), None)
        } else {
            (Err(SkipStrategy::NextAligned), None)
        },
        Err(k) => (Err(k), st2),
    }
}


/// Two multiples of `pa` less than `pa` apart are equal.
proof fn lemma_multiples_apart(b: int, c: int, pa: int)
    requires
        pa > 0,
        b >= 0,
        b % pa == 0,
        c % pa == 0,
        b <= c < b + pa,
    ensures
        c == b,
{
    vstd::arithmetic::div_mod::lemma_fundamental_div_mod(b, pa);
    vstd::arithmetic::div_mod::lemma_fundamental_div_mod(c, pa);
    let qb = b / pa;
    let qc = c / pa;
    assert(qb == qc) by (nonlinear_arith)
        requires
            b == pa * qb,
            c == pa * qc,
            b <= c < b + pa,
            pa > 0,
    ;
}

/// The multiple of `pa` after a multiple `b < m` of `pa` is at most `m`, when `m` is one too.
proof fn lemma_next_multiple(b: int, m: int, pa: int)
    requires
        pa > 0,
        b >= 0,
        b % pa == 0,
        m % pa == 0,
        b < m,
    ensures
        b + pa <= m,
        (b + pa) % pa == 0,
{
    vstd::arithmetic::div_mod::lemma_mod_add_multiples_vanish(b, pa);
    vstd::arithmetic::div_mod::lemma_fundamental_div_mod(b, pa);
    vstd::arithmetic::div_mod::lemma_fundamental_div_mod(m, pa);
    let qb = b / pa;
    let qm = m / pa;
    assert(b + pa <= m) by (nonlinear_arith)
        requires
            b == pa * qb,
            m == pa * qm,
            b < m,
            pa > 0,
    ;
}

/// An offset `j` that lies less than `pa` past a multiple `b` of `pa` has remainder `j - b`.
proof fn lemma_offset_mod(b: int, j: int, pa: int)
    requires
        pa > 0,
        b >= 0,
        b % pa == 0,
        b <= j < b + pa,
    ensures
        j % pa == j - b,
{
    vstd::arithmetic::div_mod::lemma_fundamental_div_mod(b, pa);
    let q = b / pa;
    assert(j == q * pa + (j - b)) by {
        vstd::arithmetic::mul::lemma_mul_is_commutative(q, pa);
    }
    vstd::arithmetic::div_mod::lemma_fundamental_div_mod_converse(j, pa, q, j - b);
}

/// The first entry index past `i` that is a multiple of `ea`.
pub open spec fn next_aligned(i: int, ea: int) -> int {
    if ea > 0 {
        (i + ea) - (i + ea) % ea
    } else {
        i + 1
    }
}

/// What running the scan from entry `i` in state `st` over the entries `s` (with `n_bits`
/// bits in use) gives: the first page of the range found, if any, and the final state.
pub open spec fn run_spec(s: Seq<u64>, n_bits: u64, info: AllocationInfo, st: Option<(int, u64)>, i: int) -> (Option<int>, Option<(int, u64)>)
    decreases s.len() - i,
{
    if i < 0 || i >= s.len() {
        (None, st)
    } else {
        let (r, st2) = step_spec(s[i], n_bits, info, st, i);
        let j = match r {
            Ok(_) => i,
            Err(SkipStrategy::Next) => i + 1,
            Err(SkipStrategy::NextAligned) => next_aligned(i, info.entry_align as int),
            Err(SkipStrategy::N(k)) => i + k,
        };
        match r {
            Ok(b) => (Some(b), st2),
            Err(_) => if i < j < s.len() {
                run_spec(s, n_bits, info, st2, j)
            } else {
                (None, st2)
            },
        }
    }
}

/// A usable offset has a first one.
proof fn lemma_first_slot_exists(e: u64, pa: int, n: int, c: int)
    requires
        pa > 0,
        0 <= c,
        has_slot(e, pa, n),
        forall|d: int| 0 <= d < c && d % pa == 0 ==> !#[trigger] slot_ok(e, d, n),
    ensures
        is_first_slot(e, pa, n, first_slot(e, pa, n)),
    decreases 64 - c,
{
    if c >= 64 {
        let b = choose|b: int| 0 <= b < 64 && b % pa == 0 && #[trigger] slot_ok(e, b, n);
        assert(!slot_ok(e, b, n));
    } else if c % pa == 0 && slot_ok(e, c, n) {
        lemma_first_slot(e, pa, n, c);
    } else {
        lemma_first_slot_exists(e, pa, n, c + 1);
    }
}

/// A page offset `b` (a multiple of the page alignment) inside an entry whose index is a
/// multiple of the entry alignment is a multiple of the page alignment overall.
proof fn lemma_entry_offset_aligned(info: AllocationInfo, i: int, b: int)
    requires
        info.wf(),
        i >= 0,
        i % (info.entry_align as int) == 0,
        0 <= b < 64,
        b % (info.page_align as int) == 0,
    ensures
        (i * 64 + b) % (info.page_align as int) == 0,
{
    let pa = info.page_align as int;
    let ea = info.entry_align as int;
    let pk = choose|pk: u64| pk < 64 && info.page_align == #[trigger] (1u64 << pk);
    crate::align::lemma_pow2_and_64(pk);
    crate::align::lemma_pow2_mask(0, pk);
    lemma_ceil_div_parts(pa, 64);
    vstd::arithmetic::div_mod::lemma_add_mod_noop(i * 64, b, pa);
    if pk <= 6 {
        assert((i * 64) % pa == 0) by {
            vstd::arithmetic::div_mod::lemma_fundamental_div_mod(64, pa);
            let q = 64int / pa;
            assert(i * 64 == (i * q) * pa) by (nonlinear_arith)
                requires
                    64int == pa * q,
            ;
            vstd::arithmetic::div_mod::lemma_mod_multiples_basic(i * q, pa);
        }
    } else {
        vstd::arithmetic::div_mod::lemma_small_mod(b as nat, pa as nat);
        assert(ea == pa / 64);
        vstd::arithmetic::div_mod::lemma_fundamental_div_mod(i, ea);
        let q = i / ea;
        assert(i * 64 == q * pa) by (nonlinear_arith)
            requires
                i == ea * q,
                pa == (pa / 64) * 64,
                ea == pa / 64,
        ;
        vstd::arithmetic::div_mod::lemma_mod_multiples_basic(q, pa);
    }
}

/// Runs from a state that respects the alignment find only aligned ranges inside the bits
/// in use: in the scanning state the entry index is a multiple of the entry alignment, and a
/// range being claimed starts at a multiple of the page alignment.
proof fn lemma_run_aligned(s: Seq<u64>, n_bits: u64, info: AllocationInfo, st: Option<(int, u64)>, i: int)
    requires
        info.wf(),
        i >= 0,
        st is None ==> i % (info.entry_align as int) == 0,
        st matches Some((start, rem)) ==> start >= 0 && start % (info.page_align as int) == 0,
    ensures
        run_spec(s, n_bits, info, st, i).0 matches Some(b) ==> b >= 0 && b % (info.page_align as int) == 0
            && b + info.needed_pages <= n_bits,
    decreases s.len() - i,
{
    if i >= s.len() {
        return;
    }
    let pa = info.page_align as int;
    let ea = info.entry_align as int;
    let n = info.needed_pages as int;
    let e = s[i];
    let (r, st2) = step_spec(e, n_bits, info, st, i);
    crate::align::lemma_pow2_mask(0, choose|pk: u64| pk < 64 && info.page_align == #[trigger] (1u64 << pk));
    crate::align::lemma_pow2_mask(0, choose|ek: u64| ek < 64 && info.entry_align == #[trigger] (1u64 << ek));
    if st is None {
        if has_slot(e, pa, n) {
            lemma_first_slot_exists(e, pa, n, 0);
            lemma_entry_offset_aligned(info, i, first_slot(e, pa, n));
        }
        lemma_entry_offset_aligned(info, i, 0);
    }
    let j = next_aligned(i, ea);
    crate::align::lemma_align_down_arith(i + ea, ea);
    match r {
        Ok(b) => {},
        Err(SkipStrategy::Next) => {
            if i + 1 < s.len() {
                lemma_run_aligned(s, n_bits, info, st2, i + 1);
            }
        },
        Err(SkipStrategy::NextAligned) => {
            if i < j < s.len() {
                lemma_run_aligned(s, n_bits, info, st2, j);
            }
        },
        Err(SkipStrategy::N(k)) => {},
    }
}

/// What a range being claimed has shown so far, at entry `i` of the entries `s`: its pages
/// from its start up to entry `i` are all free, and the pages still to be found, those of the
/// remaining bytes, complete the request.
pub open spec fn claim_clear(s: Seq<u64>, info: AllocationInfo, st: Option<(int, u64)>, i: int) -> bool {
    match st {
        None => true,
        Some((start, rem)) => {
            &&& 0 <= start <= i * 64
            &&& !any_set_in(s, start, i * 64)
            &&& info.needed_pages == i * 64 - start + pages_for(rem)
        },
    }
}

/// A range being claimed still has bytes to find.
pub open spec fn claim_live(st: Option<(int, u64)>) -> bool {
    st matches Some((start, rem)) ==> rem > 0
}

/// Adding whole pages to a length adds them to its page count.
proof fn lemma_pages_for_add(len: int, k: int)
    requires
        len >= 0,
        k >= 0,
        len + k * 4096 <= u64::MAX,
    ensures
        pages_for((len + k * 4096) as u64) == pages_for(len as u64) + k,
{
    vstd::arithmetic::div_mod::lemma_hoist_over_denominator(len + 4095, k, 4096);
}

/// The pages `lo <= p < hi`, inside entry `i` and after the free pages `[start, i * 64)`, are
/// all free when the entry's pages `lo - i * 64 .. hi - i * 64` are.
proof fn lemma_free_span(s: Seq<u64>, i: int, start: int, lo: int, hi: int)
    requires
        0 <= i < s.len(),
        start <= lo,
        i * 64 <= hi <= i * 64 + 64,
        start <= i * 64,
        !any_set_in(s, start, i * 64),
        all_free(s[i], if lo < i * 64 { 0 } else { lo - i * 64 }, hi - i * 64),
    ensures
        !any_set_in(s, lo, hi),
{
    assert forall|e2: int, j: u64| 0 <= e2 < s.len() && j < 64 && lo <= e2 * 64 + j < hi implies !#[trigger] bit_at(s[e2], j) by {
        if e2 * 64 + j >= i * 64 {
            assert(e2 == i);
        }
    }
}

/// One step keeps what a claimed range has shown, and a range it finds, starting from a state
/// that has shown it, is all free.
proof fn lemma_step_claim(s: Seq<u64>, n_bits: u64, info: AllocationInfo, st: Option<(int, u64)>, i: int)
    requires
        info.wf(),
        0 <= i < s.len(),
        claim_clear(s, info, st, i),
        claim_live(st),
    ensures
        ({
            let (r, st2) = step_spec(s[i], n_bits, info, st, i);
            &&& r matches Ok(b) ==> !any_set_in(s, b, b + info.needed_pages)
            &&& r matches Err(SkipStrategy::Next) ==> (claim_clear(s, info, st2, i + 1) && claim_live(st2))
            &&& r matches Err(k) ==> (k != SkipStrategy::Next ==> st2 is None)
        }),
{
    let e = s[i];
    let pa = info.page_align as int;
    let n = info.needed_pages as int;
    crate::align::lemma_pow2_mask(0, choose|pk: u64| pk < 64 && info.page_align == #[trigger] (1u64 << pk));
    match st {
        None => {
            if e == u64::MAX {
            } else if info.size > ENTRY_SIZE && info.align >= TABLE_SIZE {
                if e == 0 {
                    crate::bits::lemma_zero_and_full();
                    lemma_free_span(s, i, i * 64, i * 64, i * 64 + 64);
                    lemma_pages_for_add((info.size - ENTRY_SIZE) as int, 64);
                }
            } else if has_slot(e, pa, n) {
                lemma_first_slot_exists(e, pa, n, 0);
                let b = first_slot(e, pa, n);
                if b + n > 64 {
                    assert(info.size > (64 - b) * TABLE_SIZE) by {
                        assert(pages_for(info.size) > 64 - b);
                    }
                    lemma_free_span(s, i, i * 64, i * 64 + b, i * 64 + 64);
                    lemma_pages_for_add((info.size - (64 - b) * TABLE_SIZE) as int, 64 - b);
                } else {
                    lemma_free_span(s, i, i * 64, i * 64 + b, i * 64 + b + n);
                }
            }
        },
        Some((start, rem)) => {
            if rem > ENTRY_SIZE {
                if e == 0 {
                    crate::bits::lemma_zero_and_full();
                    lemma_free_span(s, i, start, start, i * 64 + 64);
                    lemma_pages_for_add((rem - ENTRY_SIZE) as int, 64);
                }
            } else if all_free(e, 0, pages_for(rem)) {
                assert(pages_for(rem) <= 64);
                lemma_free_span(s, i, start, start, i * 64 + pages_for(rem));
            }
        },
    }
}

/// A run that starts from a state that has shown its claimed range free finds only ranges
/// whose pages were all free.
proof fn lemma_run_claim(s: Seq<u64>, n_bits: u64, info: AllocationInfo, st: Option<(int, u64)>, i: int)
    requires
        info.wf(),
        i >= 0,
        claim_clear(s, info, st, i),
        claim_live(st),
    ensures
        run_spec(s, n_bits, info, st, i).0 matches Some(b) ==> !any_set_in(s, b, b + info.needed_pages),
    decreases s.len() - i,
{
    if i < s.len() {
        lemma_step_claim(s, n_bits, info, st, i);
        let (r, st2) = step_spec(s[i], n_bits, info, st, i);
        let j = match r {
            Ok(_) => i,
            Err(SkipStrategy::Next) => i + 1,
            Err(SkipStrategy::NextAligned) => next_aligned(i, info.entry_align as int),
            Err(SkipStrategy::N(k)) => i + k,
        };
        if r is Err && i < j < s.len() {
            lemma_run_claim(s, n_bits, info, st2, j);
        }
    }
}

/// A multiple of `pa`, scaled by `m`, is a multiple of `pa * m`.
proof fn lemma_scaled_multiple(b: int, pa: int, m: int)
    requires
        pa > 0,
        m > 0,
        b % pa == 0,
    ensures
        (b * m) % (pa * m) == 0,
{
    vstd::arithmetic::div_mod::lemma_fundamental_div_mod(b, pa);
    let q = b / pa;
    assert(b * m == q * (pa * m)) by (nonlinear_arith)
        requires
            b == pa * q,
    ;
    assert(pa * m > 0) by (nonlinear_arith)
        requires
            pa > 0,
            m > 0,
    ;
    vstd::arithmetic::div_mod::lemma_mod_multiples_basic(q, pa * m);
}

/// The bits of the region that an allocation state machine hands out are canonical
/// addresses: `base + k * TABLE_SIZE` for every `k <= n_bits` stays inside one half of the
/// address space.
pub open spec fn region_ok(base: u64, n_bits: u64) -> bool {
    ||| base + n_bits * TABLE_SIZE < 0x8000_0000_0000
    ||| (base >= 0xFFFF_8000_0000_0000 && base + n_bits * TABLE_SIZE <= u64::MAX)
}

/// A state machine that scans a bitmap for a range of pages satisfying one request.
pub struct AllocationStateMachine {
    info: AllocationInfo,
    scan_state: ScanState,
    bitmap: Bitmap,
}

impl AllocationStateMachine {
    /// The request being served.
    pub closed spec fn spec_info(&self) -> AllocationInfo {
        self.info
    }

    /// Where the scan stands.
    pub closed spec fn spec_state(&self) -> ScanState {
        self.scan_state
    }

    /// The bitmap being scanned.
    pub closed spec fn spec_bitmap(&self) -> Bitmap {
        self.bitmap
    }

    /// The request is well formed, the bitmap is, and its region is addressable.
    pub open spec fn wf(&self) -> bool {
        &&& self.spec_info().wf()
        &&& self.spec_bitmap().wf()
        &&& region_ok(self.spec_bitmap().spec_base(), self.spec_bitmap().spec_n_bits())
    }

    /// Creates a state machine for a request of `size` bytes aligned to `alignment`, over
    /// `bitmap`.
    pub fn new(size: u64, alignment: Alignment, bitmap: Bitmap) -> (r: AllocationStateMachine)
        requires
            bitmap.wf(),
            region_ok(bitmap.spec_base(), bitmap.spec_n_bits()),
        ensures
            r.wf(),
            r.spec_info().size == size,
            r.spec_info().align == alignment@,
            r.spec_state() == ScanState::Scanning,
            r.spec_bitmap() == bitmap,
    {
        AllocationStateMachine { info: AllocationInfo::new(size, alignment), scan_state: ScanState::Scanning, bitmap }
    }

    /// The bitmap being scanned.
    pub fn bitmap(&self) -> (r: &Bitmap)
        ensures
            *r == self.spec_bitmap(),
    {
        &self.bitmap
    }

    /// Where the scan stands.
    pub fn scan_state(&self) -> (r: ScanState)
        ensures
            r == self.spec_state(),
    {
        self.scan_state
    }

    /// Puts the scan back to looking for a fresh range.
    pub fn reset_scan(&mut self)
        requires
            old(self).wf(),
        ensures
            final(self).wf(),
            final(self).spec_state() == ScanState::Scanning,
            final(self).spec_info() == old(self).spec_info(),
            final(self).spec_bitmap() == old(self).spec_bitmap(),
    {
        self.scan_state = ScanState::Scanning;
    }

    /// Continues a range that spans several entries with the entry at `index`.
    fn handle_allocation(
        start: BitPtr,
        remaining_size: u64,
        bitmap: &mut Bitmap,
        state_ref: &mut ScanState,
        index: u64,
    ) -> (r: Result<BitPtr, SkipStrategy>)
        requires
            old(bitmap).wf(),
            index < old(bitmap).entries().len(),
            old(state_ref)@ == Some((start.spec_index(), remaining_size)),
        ensures
            *final(bitmap) == *old(bitmap),
            (result_view(r), final(state_ref)@) == handle_spec(
                old(bitmap).entries()[index as int],
                start.spec_index(),
                remaining_size,
            ),
            r matches Ok(p) ==> p == start,
    {
        let entry = bitmap.entry(index as usize);
        if remaining_size > ENTRY_SIZE {
            if entry != 0 {
                *state_ref = ScanState::Scanning;
                return Err(SkipStrategy::NextAligned);
            }
            *state_ref = ScanState::Allocating { start, remaining_size: remaining_size - ENTRY_SIZE };
            return Err(SkipStrategy::Next);
        }
        let needed = bytes_to_pages(remaining_size);
        let needed_mask = range_mask(needed);
        proof {
            lemma_bit_ops(entry, needed_mask);
            lemma_zero_bits(entry & needed_mask);
            if entry & needed_mask != 0 {
                let j = crate::bits::lowest_set_bit(entry & needed_mask);
                assert(!all_free(entry, 0, pages_for(remaining_size)));
            }
        }
        if entry & needed_mask != 0 {
            *state_ref = ScanState::Scanning;
            return Err(SkipStrategy::NextAligned);
        }
        proof {
            assert forall|j: u64| 0 <= j < pages_for(remaining_size) && j < 64 implies !#[trigger] bit_at(entry, j) by {
                assert(!bit_at(entry & needed_mask, j));
            }
        }
        Ok(start)
    }

    /// Looks at the entry at `index` for the start of a range that satisfies the request.
    fn scan(bitmap: &mut Bitmap, info: &AllocationInfo, state_ref: &mut ScanState, index: u64) -> (r: Result<BitPtr, SkipStrategy>)
        requires
            old(bitmap).wf(),
            info.wf(),
            index < old(bitmap).entries().len(),
            old(state_ref)@ is None,
        ensures
            *final(bitmap) == *old(bitmap),
            (result_view(r), final(state_ref)@) == scan_spec(old(bitmap).entries()[index as int], *info, index as int),
            r matches Ok(p) ==> p.spec_entry() == index,
    {
        let entry = bitmap.entry(index as usize);
        let ghost e = entry;
        let pa = info.page_align;
        let n = info.needed_pages;
        proof {
            let pk = choose|pk: u64| pk < 64 && pa == #[trigger] (1u64 << pk);
            crate::align::lemma_pow2_mask(0, pk);
            crate::align::lemma_pow2_and_64(pk);
        }
        if entry == u64::MAX {
            return Err(SkipStrategy::NextAligned);
        }
        if info.size > ENTRY_SIZE && info.align >= TABLE_SIZE {
            if entry != 0 {
                return Err(SkipStrategy::NextAligned);
            }
            *state_ref = ScanState::Allocating {
                start: BitPtr::new(index, 0),
                remaining_size: info.size - ENTRY_SIZE,
            };
            return Err(SkipStrategy::Next);
        }
        let needed_mask = range_mask(n);
        let mut b: u64 = 0;
        while b < 64
            invariant
                e == entry,
                e == old(bitmap).entries()[index as int],
                *bitmap == *old(bitmap),
                old(bitmap).wf(),
                info.wf(),
                index < old(bitmap).entries().len(),
                pa == info.page_align,
                n == info.needed_pages,
                0 < pa <= 0x8000_0000_0000_0000u64,
                b % pa == 0,
                b < 64 + pa,
                needed_mask == run_mask_spec(n),
                forall|c: int| 0 <= c < b && c % (pa as int) == 0 ==> !#[trigger] slot_ok(e, c, n as int),
                *state_ref == *old(state_ref),
                state_ref@ is None,
                !(info.size > ENTRY_SIZE && info.align >= TABLE_SIZE),
                e != u64::MAX,
            decreases 64 + pa - b,
        {
            let positioned = needed_mask << b;
            proof {
                lemma_shifted_run_mask(n, b);
                lemma_bit_ops(entry, positioned);
                lemma_zero_bits(entry & positioned);
            }
            if entry & positioned == 0 {
                proof {
                    assert forall|j: u64| b <= j < b + n && j < 64 implies !#[trigger] bit_at(e, j) by {
                        assert(!bit_at(entry & positioned, j));
                    }
                    assert(slot_ok(e, b as int, n as int));
                    lemma_first_slot(e, pa as int, n as int, b as int);
                }
                if b + n > 64 {
                    assert(info.size > (64 - b) * TABLE_SIZE);
                    *state_ref = ScanState::Allocating {
                        start: BitPtr::new(index, b as u8),
                        remaining_size: info.size - (64 - b) * TABLE_SIZE,
                    };
                    return Err(SkipStrategy::Next);
                }
                return Ok(BitPtr::new(index, b as u8));
            }
            proof {
                let j = crate::bits::lowest_set_bit(entry & positioned);
                assert(!all_free(e, b as int, b + n));
                assert forall|c: int| 0 <= c < b + pa && c % (pa as int) == 0 implies !#[trigger] slot_ok(e, c, n as int) by {
                    if c >= b {
                        lemma_multiples_apart(b as int, c, pa as int);
                    }
                }
                vstd::arithmetic::div_mod::lemma_mod_add_multiples_vanish(b as int, pa as int);
            }
            b = b + pa;
        }
        Err(SkipStrategy::NextAligned)
    }

    /// Steps the scan once on the entry at `index`; on success, marks the range found as
    /// allocated.
    fn step(bitmap: &mut Bitmap, info: &AllocationInfo, state_ref: &mut ScanState, index: u64) -> (r: Result<BitPtr, SkipStrategy>)
        requires
            old(bitmap).wf(),
            info.wf(),
            index < old(bitmap).entries().len(),
        ensures
            final(bitmap).wf(),
            final(bitmap).spec_n_bits() == old(bitmap).spec_n_bits(),
            final(bitmap).spec_base() == old(bitmap).spec_base(),
            (result_view(r), final(state_ref)@) == step_spec(
                old(bitmap).entries()[index as int],
                old(bitmap).spec_n_bits(),
                *info,
                old(state_ref)@,
                index as int,
            ),
            r matches Ok(p) ==> range_written(
                old(bitmap).entries(),
                final(bitmap).entries(),
                p.spec_index(),
                p.spec_index() + info.needed_pages,
                true,
            ),
            r is Err ==> final(bitmap).entries() == old(bitmap).entries(),
    {
        let state = *state_ref;
        let found = match state {
            ScanState::Allocating { start, remaining_size } => Self::handle_allocation(
                start,
                remaining_size,
                bitmap,
                state_ref,
                index,
            ),
            ScanState::Scanning => Self::scan(bitmap, info, state_ref, index),
        };
        let res = match found {
            Ok(p) => p,
            Err(skip) => return Err(skip),
        };
        *state_ref = ScanState::Scanning;
        if res.bit_index() + info.needed_pages > bitmap.n_bits() {
            return Err(SkipStrategy::NextAligned);
        }
        bitmap.set(res, info.needed_pages);
        Ok(res)
    }

    /// Steps the state machine once on the entry at `index`; on success, returns the address
    /// of the first page of the range it marked as allocated. A step from the scanning state
    /// hands out only pages that were all free.
    pub fn do_step(&mut self, index: u64) -> (r: Result<VirtAddr, SkipStrategy>)
        requires
            old(self).wf(),
            index < old(self).spec_bitmap().entries().len(),
        ensures
            final(self).wf(),
            final(self).spec_info() == old(self).spec_info(),
            final(self).spec_bitmap().spec_n_bits() == old(self).spec_bitmap().spec_n_bits(),
            final(self).spec_bitmap().spec_base() == old(self).spec_bitmap().spec_base(),
            ({
                let (sr, st) = step_spec(
                    old(self).spec_bitmap().entries()[index as int],
                    old(self).spec_bitmap().spec_n_bits(),
                    old(self).spec_info(),
                    old(self).spec_state()@,
                    index as int,
                );
                &&& final(self).spec_state()@ == st
                &&& match sr {
                    Ok(b) => {
                        &&& r matches Ok(a)
                        &&& a@ == old(self).spec_bitmap().spec_base() + b * TABLE_SIZE
                        &&& range_written(
                            old(self).spec_bitmap().entries(),
                            final(self).spec_bitmap().entries(),
                            b,
                            b + old(self).spec_info().needed_pages,
                            true,
                        )
                    },
                    Err(k) => {
                        &&& r == Err::<VirtAddr, SkipStrategy>(k)
                        &&& final(self).spec_bitmap().entries() == old(self).spec_bitmap().entries()
                    },
                }
            }),
            old(self).spec_state()@ is None ==> (step_spec(
                old(self).spec_bitmap().entries()[index as int],
                old(self).spec_bitmap().spec_n_bits(),
                old(self).spec_info(),
                None,
                index as int,
            ).0 matches Ok(b) ==> !any_set_in(
                old(self).spec_bitmap().entries(),
                b,
                b + old(self).spec_info().needed_pages,
            )),
    {
        proof {
            if self.scan_state@ is None {
                lemma_step_claim(self.bitmap.entries(), self.bitmap.spec_n_bits(), self.info, None, index as int);
            }
        }
        let found = Self::step(&mut self.bitmap, &self.info, &mut self.scan_state, index);
        match found {
            Ok(p) => {
                let bi = p.bit_index();
                let base = self.bitmap.base_addr();
                proof {
                    let nb = self.bitmap.spec_n_bits();
                    assert(bi * TABLE_SIZE <= nb * TABLE_SIZE) by (nonlinear_arith)
                        requires
                            bi <= nb,
                    ;
                    crate::arch::lemma_shift_constants();
                }
                Ok(VirtAddr::new(base + bi * TABLE_SIZE))
            },
            Err(k) => Err(k),
        }
    }

    /// Scans the whole bitmap from its first entry; returns the address of the first page
    /// of the range found and marked as allocated, or `None` when the scan finds none. A scan
    /// that starts afresh hands out only pages that were all free.
    pub fn run(&mut self) -> (r: Option<VirtAddr>)
        requires
            old(self).wf(),
        ensures
            final(self).wf(),
            final(self).spec_info() == old(self).spec_info(),
            final(self).spec_bitmap().spec_n_bits() == old(self).spec_bitmap().spec_n_bits(),
            final(self).spec_bitmap().spec_base() == old(self).spec_bitmap().spec_base(),
            ({
                let (res, st) = run_spec(
                    old(self).spec_bitmap().entries(),
                    old(self).spec_bitmap().spec_n_bits(),
                    old(self).spec_info(),
                    old(self).spec_state()@,
                    0,
                );
                &&& final(self).spec_state()@ == st
                &&& match res {
                    Some(b) => {
                        &&& r matches Some(a)
                        &&& a@ == old(self).spec_bitmap().spec_base() + b * TABLE_SIZE
                        &&& range_written(
                            old(self).spec_bitmap().entries(),
                            final(self).spec_bitmap().entries(),
                            b,
                            b + old(self).spec_info().needed_pages,
                            true,
                        )
                    },
                    None => {
                        &&& r is None
                        &&& final(self).spec_bitmap().entries() == old(self).spec_bitmap().entries()
                    },
                }
            }),
            old(self).spec_state()@ is None ==> (r matches Some(a) ==> {
                let base = old(self).spec_bitmap().spec_base();
                let info = old(self).spec_info();
                &&& (a@ - base) % (info.page_align * TABLE_SIZE) == 0
                &&& a@ + info.needed_pages * TABLE_SIZE <= base + old(self).spec_bitmap().spec_n_bits() * TABLE_SIZE
                &&& !any_set_in(
                    old(self).spec_bitmap().entries(),
                    (a@ - base) / TABLE_SIZE as int,
                    (a@ - base) / TABLE_SIZE as int + info.needed_pages,
                )
            }),
    {
        let ghost s0 = self.bitmap.entries();
        let ghost nb = self.bitmap.spec_n_bits();
        let ghost info = self.info;
        let ghost res0 = run_spec(s0, nb, info, self.scan_state@, 0);
        proof {
            if self.scan_state@ is None {
                lemma_run_claim(s0, nb, info, None, 0);
                if let Some(b) = res0.0 {
                    vstd::arithmetic::div_mod::lemma_div_multiples_vanish(b, TABLE_SIZE as int);
                }
            }
            crate::align::lemma_pow2_mask(0, choose|ek: u64| ek < 64 && info.entry_align == #[trigger] (1u64 << ek));
            crate::align::lemma_pow2_mask(0, choose|pk: u64| pk < 64 && info.page_align == #[trigger] (1u64 << pk));
            if self.scan_state@ is None {
                lemma_run_aligned(s0, nb, info, self.scan_state@, 0);
                if let Some(b) = res0.0 {
                    lemma_scaled_multiple(b, info.page_align as int, TABLE_SIZE as int);
                }
            }
        }
        let len = self.bitmap.len() as u64;
        let mut index: u64 = 0;
        while index < len
            invariant
                self.wf(),
                self.spec_info() == info,
                self.spec_bitmap().entries() == s0,
                self.spec_bitmap().spec_n_bits() == nb,
                self.spec_bitmap().spec_base() == old(self).spec_bitmap().spec_base(),
                s0 == old(self).spec_bitmap().entries(),
                nb == old(self).spec_bitmap().spec_n_bits(),
                info == old(self).spec_info(),
                len == s0.len(),
                index < len + info.entry_align,
                info.entry_align >= 1,
                run_spec(s0, nb, info, self.spec_state()@, index as int) == res0,
                res0 == run_spec(s0, nb, info, old(self).spec_state()@, 0),
                old(self).spec_state()@ is None ==> (res0.0 matches Some(b) ==> (b * TABLE_SIZE) % (
                info.page_align * TABLE_SIZE) == 0),
                old(self).spec_state()@ is None ==> (res0.0 matches Some(b) ==> (b * TABLE_SIZE) / (
                TABLE_SIZE as int) == b && !any_set_in(s0, b, b + info.needed_pages)),
            decreases len + info.entry_align - index,
        {
            let ghost st = self.spec_state()@;
            proof {
                crate::align::lemma_pow2_mask(0, choose|ek: u64| ek < 64 && info.entry_align == #[trigger] (1u64 << ek));
            }
            match self.do_step(index) {
                Ok(addr) => return Some(addr),
                Err(SkipStrategy::Next) => index = index + 1,
                Err(SkipStrategy::NextAligned) => {
                    let ea = self.info.entry_align;
                    let align_mask = ea - 1;
                    proof {
                        let ek = choose|ek: u64| ek < 64 && info.entry_align == #[trigger] (1u64 << ek);
                        crate::align::lemma_pow2_mask((index + ea) as u64, ek);
                        crate::align::lemma_align_down_arith(index + ea, ea as int);
                    }
                    index = (index + ea) & !align_mask;
                },
                Err(SkipStrategy::N(n)) => {
                    proof {
                        assert(false);
                    }
                    index = index + n;
                },
            }
        }
        None
    }
}

} // verus!
