//! A bitmap primitive for tracking the allocation status of pages.
use vstd::prelude::*;
use crate::bits::{
    bit_at, is_mask_of, lemma_bit_ops, lemma_run_mask, lemma_shifted_run_mask, bit_run_mask,
    entry_mask, lemma_shr_bits, lemma_shr_shr, lemma_zero_bits,
};
use crate::align::{Alignment, align_up, lemma_aligned_index, lemma_pow2_and_64, lemma_pow2_mask};
use crate::bitptr::{BitPtr, BITPTR_MAX_ENTRY};

verus! {

/// Bit `i` of the bitmap whose entries are `s`.
pub open spec fn bit_of(s: Seq<u64>, i: int) -> bool {
    bit_at(s[i / 64], (i % 64) as u64)
}

/// `new` is `old` with the bits `lo <= i < hi` set to `value` and every other bit kept.
pub open spec fn range_written(old: Seq<u64>, new: Seq<u64>, lo: int, hi: int, value: bool) -> bool {
    &&& new.len() == old.len()
    &&& forall|e: int, j: u64|
        0 <= e < old.len() && j < 64 ==> #[trigger] bit_at(new[e], j) == (if lo <= e * 64 + j < hi {
            value
        } else {
            bit_at(old[e], j)
        })
}

/// Some bit `lo <= i < hi` of the entries `s` is set.
pub open spec fn any_set_in(s: Seq<u64>, lo: int, hi: int) -> bool {
    exists|e: int, j: u64|
        0 <= e < s.len() && j < 64 && lo <= e * 64 + j < hi && #[trigger] bit_at(s[e], j)
}

/// Every bit `lo <= i < hi` of the entries `s` is set.
pub open spec fn all_set_in(s: Seq<u64>, lo: int, hi: int) -> bool {
    forall|e: int, j: u64|
        0 <= e < s.len() && j < 64 && lo <= e * 64 + j < hi ==> #[trigger] bit_at(s[e], j)
}

/// A place for `n` bits at bit index `idx` aligned to `a`: aligned, inside the `n_total`
/// bits in use, and clear in the entries `s`.
pub open spec fn fits_at(s: Seq<u64>, n_total: u64, idx: int, n: int, a: int) -> bool {
    &&& idx % a == 0
    &&& idx + n <= n_total
    &&& !any_set_in(s, idx, idx + n)
}

/// The entry skip that `aligned_entries` uses for an alignment of `a` bits.
pub open spec fn entry_skip(a: u64) -> int {
    if a / 64 > 1 {
        (a / 64) as int
    } else {
        1
    }
}

/// One past the highest set bit of the word `e`; zero for a zero word.
pub open spec fn high_end(e: u64) -> int {
    64 - vstd::std_specs::bits::u64_leading_zeros(e)
}

/// Where the entry `ind` of the entries `s` can take more than 64 bits aligned to `a`, as the
/// chunk search tries it: for an alignment above 64, the start of the entry when it is zero;
/// otherwise the first aligned bit after its highest set bit. The bits taken must be inside the
/// `n_total` in use and all clear.
pub open spec fn pick_in_entry(s: Seq<u64>, n_total: u64, n: int, a: int, ind: int) -> Option<int> {
    if a > 64 {
        if s[ind] == 0 && n <= n_total && ind * 64 <= n_total - n && !any_set_in(s, ind * 64, ind * 64 + n) {
            Some(ind * 64)
        } else {
            None
        }
    } else {
        let r = crate::align::align_up_spec(high_end(s[ind]), a);
        if r < 64 && n <= n_total && ind * 64 + r <= n_total - n && !any_set_in(s, ind * 64 + r, ind * 64 + r + n) {
            Some(ind * 64 + r)
        } else {
            None
        }
    }
}

/// The place the search for more than 64 bits aligned to `a` finds, from chunk `c` on: the first
/// entry of each chunk of `entry_skip(a)` entries is tried in order (see `pick_in_entry`).
pub open spec fn search_from(s: Seq<u64>, n_total: u64, n: int, a: u64, c: int) -> Option<int>
    decreases s.len() - c,
{
    let ind = c * entry_skip(a);
    if c < 0 || ind >= s.len() {
        None
    } else {
        proof {
            assert(c <= c * entry_skip(a)) by (nonlinear_arith)
                requires
                    c >= 0,
                    entry_skip(a) >= 1,
            ;
        }
        match pick_in_entry(s, n_total, n, a as int, ind) {
            Some(i) => Some(i),
            None => search_from(s, n_total, n, a, c + 1),
        }
    }
}

/// The first index from `i` on, in steps of `a`, where `n` bits aligned to `a` fit in the
/// entries `s` with `n_total` bits in use (see `fits_at`).
pub open spec fn fit_from(s: Seq<u64>, n_total: u64, n: int, a: int, i: int) -> Option<int>
    decreases n_total - i,
{
    if a <= 0 || n < 0 || i < 0 || i + n > n_total {
        None
    } else if fits_at(s, n_total, i, n, a) {
        Some(i)
    } else if i + a > n_total {
        None
    } else {
        fit_from(s, n_total, n, a, i + a)
    }
}

/// Where a request for `n` bits aligned to `a` is placed in the entries `s` with `n_total` bits
/// in use: for up to 64 bits the lowest aligned place where they fit; for more, the place the
/// chunk search finds (see `search_from`).
pub open spec fn bitmap_search(s: Seq<u64>, n_total: u64, n: int, a: u64) -> Option<int> {
    if n <= 64 {
        fit_from(s, n_total, n, a as int, 0)
    } else {
        search_from(s, n_total, n, a, 0)
    }
}

/// A multiple `j` of `a` above the multiple `i` is at least `i + a`.
proof fn lemma_next_aligned(i: int, j: int, a: int)
    requires
        a > 0,
        i >= 0,
        i % a == 0,
        j % a == 0,
        i < j,
    ensures
        i + a <= j,
{
    vstd::arithmetic::div_mod::lemma_fundamental_div_mod(i, a);
    vstd::arithmetic::div_mod::lemma_fundamental_div_mod(j, a);
    let qi = i / a;
    let qj = j / a;
    assert(i + a <= j) by (nonlinear_arith)
        requires
            i == a * qi,
            j == a * qj,
            i < j,
            a > 0,
    ;
}

/// When the search from the multiple `i` of `a` finds nothing, no multiple of `a` from `i` on
/// is a place where the bits fit.
pub proof fn lemma_fit_from_complete(s: Seq<u64>, n_total: u64, n: int, a: int, i: int)
    requires
        a > 0,
        n >= 0,
        i >= 0,
        i % a == 0,
        fit_from(s, n_total, n, a, i) is None,
    ensures
        forall|j: int| j >= i && j % a == 0 ==> !#[trigger] fits_at(s, n_total, j, n, a),
    decreases n_total - i,
{
    if i + n <= n_total && i + a <= n_total {
        vstd::arithmetic::div_mod::lemma_mod_add_multiples_vanish(i, a);
        lemma_fit_from_complete(s, n_total, n, a, i + a);
    }
    assert forall|j: int| j >= i && j % a == 0 implies !#[trigger] fits_at(s, n_total, j, n, a) by {
        if j > i {
            lemma_next_aligned(i, j, a);
        }
    }
}

/// When no bit of the word `e` from `off` on is set, its highest set bit lies below `off`, and
/// no bit from `high_end(e)` on is set.
proof fn lemma_high_end_below(e: u64, off: int)
    requires
        0 <= off <= 64,
        forall|b: u64| off <= b < 64 ==> !#[trigger] bit_at(e, b),
    ensures
        high_end(e) <= off,
        forall|b: u64| high_end(e) <= b < 64 ==> !#[trigger] bit_at(e, b),
{
    vstd::std_specs::bits::axiom_u64_leading_zeros(e);
    let lz = vstd::std_specs::bits::u64_leading_zeros(e);
    if lz < 64 {
        let k = (63 - lz) as u64;
        assert((e >> k) & 1u64 != 0u64 ==> bit_at(e, k)) by (bit_vector);
        assert(bit_at(e, k));
    }
    assert forall|b: u64| high_end(e) <= b < 64 implies !#[trigger] bit_at(e, b) by {
        assert((e >> b) & 1u64 == 0u64);
    }
}

/// A chunk search from `c0` reaches chunk `c`, so finds something when the entry of chunk `c`
/// can take the bits.
proof fn lemma_search_reaches(s: Seq<u64>, n_total: u64, n: int, a: u64, c0: int, c: int)
    requires
        0 <= c0 <= c,
        c * entry_skip(a) < s.len(),
        pick_in_entry(s, n_total, n, a as int, c * entry_skip(a)) is Some,
    ensures
        search_from(s, n_total, n, a, c0) is Some,
    decreases c - c0,
{
    assert(c0 * entry_skip(a) <= c * entry_skip(a)) by (nonlinear_arith)
        requires
            0 <= c0 <= c,
            entry_skip(a) >= 1,
    ;
    if c0 < c {
        lemma_search_reaches(s, n_total, n, a, c0 + 1, c);
    }
}

/// The chunk search for more than 64 bits misses no place: when `n` bits fit at some index
/// aligned to `1 << k`, the search finds a place.
pub proof fn lemma_search_from_complete(s: Seq<u64>, n_total: u64, n: int, k: u64, j: int)
    requires
        k < 64,
        n > 64,
        n_total <= s.len() * 64,
        j >= 0,
        fits_at(s, n_total, j, n, (1u64 << k) as int),
    ensures
        search_from(s, n_total, n, 1u64 << k, 0) is Some,
{
    let a = 1u64 << k;
    lemma_pow2_and_64(k);
    vstd::bits::lemma_u64_pow2_no_overflow(k as nat);
    vstd::bits::lemma_u64_shl_is_mul(1, k);
    vstd::arithmetic::power2::lemma_pow2_pos(k as nat);
    assert(a > 0);
    vstd::arithmetic::div_mod::lemma_fundamental_div_mod(j, 64);
    let ind = j / 64;
    let off = j % 64;
    assert(j == ind * 64 + off);
    assert(ind < s.len());
    assert forall|b: u64| off <= b < 64 implies !#[trigger] bit_at(s[ind], b) by {
        assert(j <= ind * 64 + b < j + n);
    }
    if a > 64 {
        vstd::arithmetic::div_mod::lemma_fundamental_div_mod(a as int, 64);
        let m = a as int / 64;
        assert(a as int == 64 * m);
        assert(m >= 2);
        assert(entry_skip(a) == m);
        vstd::arithmetic::div_mod::lemma_fundamental_div_mod(j, a as int);
        let q = j / (a as int);
        assert(j == a * q);
        assert(q >= 0) by (nonlinear_arith)
            requires
                j == a * q,
                j >= 0,
                a > 0,
        ;
        assert(j == 64 * (m * q)) by (nonlinear_arith)
            requires
                j == a * q,
                a as int == 64 * m,
        ;
        vstd::arithmetic::div_mod::lemma_mod_multiples_basic(m * q, 64);
        vstd::arithmetic::div_mod::lemma_div_multiples_vanish(m * q, 64);
        assert(off == 0);
        assert(ind == m * q);
        assert(ind == q * entry_skip(a)) by (nonlinear_arith)
            requires
                ind == m * q,
                entry_skip(a) == m,
        ;
        crate::bits::lemma_zero_bits(s[ind]);
        assert(s[ind] == 0);
        assert(pick_in_entry(s, n_total, n, a as int, ind) is Some);
        lemma_search_reaches(s, n_total, n, a, 0, q);
    } else {
        assert(entry_skip(a) == 1);
        assert(off % (a as int) == 0) by {
            vstd::arithmetic::div_mod::lemma_fundamental_div_mod(64int, a as int);
            let t: int = 64int / (a as int);
            assert(ind * 64 == (ind * t) * a) by (nonlinear_arith)
                requires
                    64 == a * t,
            ;
            vstd::arithmetic::div_mod::lemma_mod_multiples_vanish(ind * t, off, a as int);
            assert((ind * t) * a + off == a * (ind * t) + off) by (nonlinear_arith);
        }
        lemma_high_end_below(s[ind], off);
        let h = high_end(s[ind]);
        assert(h >= 0) by {
            vstd::std_specs::bits::axiom_u64_leading_zeros(s[ind]);
        }
        crate::align::lemma_align_up_arith(h, a as int);
        let r = crate::align::align_up_spec(h, a as int);
        if r > off {
            lemma_next_aligned(off, r, a as int);
        }
        assert(r <= off);
        assert forall|e2: int, b: u64|
            0 <= e2 < s.len() && b < 64 && ind * 64 + r <= e2 * 64 + b < ind * 64 + r + n
                implies !#[trigger] bit_at(s[e2], b) by {
            if e2 * 64 + b < j {
                assert(e2 == ind);
            }
        }
        assert(pick_in_entry(s, n_total, n, a as int, ind) is Some);
        assert(ind * entry_skip(a) == ind);
        lemma_search_reaches(s, n_total, n, a, 0, ind);
    }
}

/// A word with bit `j` changed by a mask: set when `value`, cleared otherwise.
pub open spec fn masked(word: u64, mask: u64, value: bool) -> u64 {
    if value {
        word | mask
    } else {
        word & !mask
    }
}

/// Applying a mask of the local bits `lo..hi` writes exactly those bits.
pub proof fn lemma_masked(word: u64, mask: u64, value: bool, lo: int, hi: int)
    requires
        is_mask_of(mask, lo, hi),
    ensures
        forall|j: u64|
            j < 64 ==> #[trigger] bit_at(masked(word, mask, value), j) == (if lo <= j < hi {
                value
            } else {
                bit_at(word, j)
            }),
{
    lemma_bit_ops(word, mask);
    assert forall|j: u64| j < 64 implies #[trigger] bit_at(masked(word, mask, value), j) == (if lo
        <= j < hi {
        value
    } else {
        bit_at(word, j)
    }) by {
        assert(bit_at(mask, j) <==> (lo <= j && j < hi));
    }
}

/// A mask that repeats a run of `size` low bits once per `align` bits across a word, with the
/// number of repetitions, or `None` when the run is longer than the alignment or a word.
pub fn run_mask(size: u64, align: Alignment) -> (r: Option<(u64, u64)>)
    ensures
        r is None <==> (size > align@ || size > 64),
        r matches Some((n, m)) ==> {
            &&& n == (if align@ >= 64 {
                1
            } else {
                64u64 / align@
            })
            &&& forall|j: u64| j < 64 ==> (#[trigger] bit_at(m, j) <==> j % align@ < size)
        },
{
    let a = align.as_u64();
    if size > a || size > 64 {
        return None;
    }
    let run = bit_run_mask(size);
    if a >= 64 {
        proof {
            assert forall|j: u64| j < 64 implies (#[trigger] bit_at(run, j) <==> j % a < size) by {
                vstd::arithmetic::div_mod::lemma_small_mod(j as nat, a as nat);
            }
        }
        return Some((1, run));
    }
    let m = crate::alloc_state::rep_mask(run, a);
    Some((64 / a, m))
}

/// A bitmap over a vector of 64-bit entries, one bit per managed page.
pub struct Bitmap {
    /// The base address of the memory region this bitmap manages.
    base_addr: u64,
    /// The number of bits in use.
    n_bits: u64,
    /// The entries, 64 bits each.
    data: Vec<u64>,
}

impl Bitmap {
    /// The entries of the bitmap.
    pub closed spec fn entries(&self) -> Seq<u64> {
        self.data@
    }

    /// The number of bits in use.
    pub closed spec fn spec_n_bits(&self) -> u64 {
        self.n_bits
    }

    /// The base address of the managed region.
    pub closed spec fn spec_base(&self) -> u64 {
        self.base_addr
    }

    /// The bits in use fit the entries, and every entry index fits a `BitPtr` and a `usize`.
    pub open spec fn wf(&self) -> bool {
        &&& self.spec_n_bits() <= self.entries().len() * 64
        &&& self.entries().len() < BITPTR_MAX_ENTRY
        &&& self.entries().len() <= usize::MAX
    }

    /// Bit `i` of the bitmap.
    pub open spec fn bit(&self, i: int) -> bool {
        bit_of(self.entries(), i)
    }

    /// Initializes a bitmap over `data` with `n_bits` bits in use, managing the region at `base_addr`.
    pub fn init(data: Vec<u64>, n_bits: u64, base_addr: u64) -> (r: Bitmap)
        requires
            n_bits <= data@.len() * 64,
            data@.len() < BITPTR_MAX_ENTRY,
        ensures
            r.wf(),
            r.entries() == data@,
            r.spec_n_bits() == n_bits,
            r.spec_base() == base_addr,
    {
        let len = data.len();
        assert(data@.len() == len);
        Bitmap { base_addr, n_bits, data }
    }

    /// The number of bits in use.
    pub fn n_bits(&self) -> (r: u64)
        ensures
            r == self.spec_n_bits(),
    {
        self.n_bits
    }

    /// The base address of the managed region.
    pub fn base_addr(&self) -> (r: u64)
        ensures
            r == self.spec_base(),
    {
        self.base_addr
    }

    /// The number of 64-bit entries.
    pub fn len(&self) -> (r: usize)
        ensures
            r == self.entries().len(),
    {
        self.data.len()
    }

    /// The entries of the bitmap.
    pub fn entries_slice(&self) -> (r: &[u64])
        ensures
            r@ == self.entries(),
    {
        self.data.as_slice()
    }

    /// Returns entry `index`.
    pub fn entry(&self, index: usize) -> (r: u64)
        requires
            index < self.entries().len(),
        ensures
            r == self.entries()[index as int],
    {
        self.data[index]
    }

    /// Overwrites entry `index` with `value`.
    pub fn set_entry(&mut self, index: usize, value: u64)
        requires
            old(self).wf(),
            index < old(self).entries().len(),
        ensures
            final(self).wf(),
            final(self).entries() == old(self).entries().update(index as int, value),
            final(self).spec_n_bits() == old(self).spec_n_bits(),
            final(self).spec_base() == old(self).spec_base(),
    {
        self.data.set(index, value);
    }

    /// Returns the 4 consecutive entries starting at `entry`.
    pub fn get_vec(&self, entry: usize) -> (r: [u64; 4])
        requires
            entry + 4 <= self.entries().len(),
        ensures
            forall|k: int| 0 <= k < 4 ==> r[k] == self.entries()[entry + k],
    {
        // The call bounds the length by `usize::MAX`.
        let _len = self.data.len();
        [self.data[entry], self.data[entry + 1], self.data[entry + 2], self.data[entry + 3]]
    }

    /// Writes 4 consecutive entries starting at `entry`.
    pub fn set_vec(&mut self, entry: usize, vec: [u64; 4])
        requires
            old(self).wf(),
            entry + 4 <= old(self).entries().len(),
        ensures
            final(self).wf(),
            final(self).spec_n_bits() == old(self).spec_n_bits(),
            final(self).spec_base() == old(self).spec_base(),
            final(self).entries().len() == old(self).entries().len(),
            forall|e: int|
                0 <= e < old(self).entries().len() ==> #[trigger] final(self).entries()[e] == if entry
                    <= e < entry + 4 {
                    vec[e - entry]
                } else {
                    old(self).entries()[e]
                },
    {
        // The call bounds the length by `usize::MAX`.
        let _len = self.data.len();
        self.data.set(entry, vec[0]);
        self.data.set(entry + 1, vec[1]);
        self.data.set(entry + 2, vec[2]);
        self.data.set(entry + 3, vec[3]);
    }

    /// The entries in chunks of 4; trailing entries that do not fill a chunk are left out.
    pub fn vec_chunks(&self) -> (r: Vec<[u64; 4]>)
        ensures
            r@.len() == self.entries().len() / 4,
            forall|c: int, k: int|
                0 <= c < r@.len() && 0 <= k < 4 ==> #[trigger] r@[c][k] == self.entries()[c * 4 + k],
    {
        let n = self.data.len() / 4;
        let mut out: Vec<[u64; 4]> = Vec::new();
        let mut c: usize = 0;
        while c < n
            invariant
                n == self.entries().len() / 4,
                c <= n,
                out@.len() == c,
                forall|c2: int, k: int|
                    0 <= c2 < c && 0 <= k < 4 ==> #[trigger] out@[c2][k] == self.entries()[c2 * 4
                        + k],
            decreases n - c,
        {
            // The call bounds the length by `usize::MAX`.
        let _len = self.data.len();
            let v = self.get_vec(c * 4);
            out.push(v);
            c = c + 1;
        }
        out
    }

    /// The first entry of each chunk of `max(align / 64, 1)` entries, with its index.
    pub fn aligned_entries(&self, align: Alignment) -> (r: Vec<(usize, u64)>)
        requires
            self.wf(),
        ensures
            ({
                let skip = if align@ / 64 > 1 {
                    align@ / 64
                } else {
                    1
                };
                &&& forall|k: int|
                    0 <= k < r@.len() ==> (#[trigger] r@[k]).0 == k * skip && r@[k].0 < self.entries().len()
                        && r@[k].1 == self.entries()[r@[k].0 as int]
                &&& r@.len() * skip >= self.entries().len()
                &&& (r@.len() - 1) * skip < self.entries().len() || r@.len() == 0
            }),
    {
        let a = align.as_u64();
        let ent_skip: u64 = if a / 64 > 1 {
            a / 64
        } else {
            1
        };
        let len = self.data.len();
        assert(a / 64 <= 0x0400_0000_0000_0000u64);
        let mut out: Vec<(usize, u64)> = Vec::new();
        let mut i: u64 = 0;
        let mut k: u64 = 0;
        while i < len as u64
            invariant
                ent_skip >= 1,
                ent_skip == (if a / 64 > 1 {
                    a / 64
                } else {
                    1
                }),
                a == align@,
                len == self.entries().len(),
                len < BITPTR_MAX_ENTRY,
                ent_skip <= 0x0400_0000_0000_0000u64,
                i == k * ent_skip,
                k <= i || k == 0,
                out@.len() == k,
                (k - 1) * ent_skip < len || k == 0,
                forall|k2: int|
                    0 <= k2 < k ==> (#[trigger] out@[k2]).0 == k2 * ent_skip && out@[k2].0 < len
                        && out@[k2].1 == self.entries()[out@[k2].0 as int],
                k <= len,
            decreases len - k,
        {
            out.push((i as usize, self.data[i as usize]));
            proof {
                assert(((k + 1) as int) * ent_skip == i + ent_skip) by (nonlinear_arith)
                    requires
                        i == k * ent_skip,
                ;
            }
            k = k + 1;
            i = i + ent_skip;
        }
        out
    }

    /// Resets the entire bitmap, clearing all bits.
    pub fn reset(&mut self)
        requires
            old(self).wf(),
        ensures
            final(self).wf(),
            final(self).spec_n_bits() == old(self).spec_n_bits(),
            final(self).spec_base() == old(self).spec_base(),
            final(self).entries().len() == old(self).entries().len(),
            forall|e: int| 0 <= e < final(self).entries().len() ==> #[trigger] final(self).entries()[e]
                == 0,
    {
        let len = self.data.len();
        let mut i: usize = 0;
        while i < len
            invariant
                self.wf(),
                len == self.entries().len(),
                self.spec_n_bits() == old(self).spec_n_bits(),
                self.spec_base() == old(self).spec_base(),
                self.entries().len() == old(self).entries().len(),
                i <= len,
                forall|e: int| 0 <= e < i ==> #[trigger] self.entries()[e] == 0,
            decreases len - i,
        {
            self.data.set(i, 0);
            i = i + 1;
        }
    }

    /// Writes `mask` into entry `e`, setting its bits when `value` and clearing them otherwise.
    fn write_mask(&mut self, e: usize, mask: u64, value: bool)
        requires
            old(self).wf(),
            e < old(self).entries().len(),
        ensures
            final(self).wf(),
            final(self).spec_n_bits() == old(self).spec_n_bits(),
            final(self).spec_base() == old(self).spec_base(),
            final(self).entries() == old(self).entries().update(
                e as int,
                masked(old(self).entries()[e as int], mask, value),
            ),
    {
        let w = self.data[e];
        let nw = if value {
            w | mask
        } else {
            w & !mask
        };
        self.data.set(e, nw);
    }

    /// Sets the `count` bits starting at `bit_ptr`, marking the pages allocated.
    pub fn set(&mut self, bit_ptr: BitPtr, count: u64)
        requires
            old(self).wf(),
            bit_ptr.spec_index() + count <= old(self).spec_n_bits(),
        ensures
            final(self).wf(),
            final(self).spec_n_bits() == old(self).spec_n_bits(),
            final(self).spec_base() == old(self).spec_base(),
            range_written(
                old(self).entries(),
                final(self).entries(),
                bit_ptr.spec_index(),
                bit_ptr.spec_index() + count,
                true,
            ),
    {
        self.mod_range(bit_ptr, count, true);
    }

    /// Clears the `count` bits starting at `bit_ptr`, marking the pages free.
    pub fn clear(&mut self, bit_ptr: BitPtr, count: u64)
        requires
            old(self).wf(),
            bit_ptr.spec_index() + count <= old(self).spec_n_bits(),
        ensures
            final(self).wf(),
            final(self).spec_n_bits() == old(self).spec_n_bits(),
            final(self).spec_base() == old(self).spec_base(),
            range_written(
                old(self).entries(),
                final(self).entries(),
                bit_ptr.spec_index(),
                bit_ptr.spec_index() + count,
                false,
            ),
    {
        self.mod_range(bit_ptr, count, false);
    }

    /// Writes `value` into the `count` bits starting at `bit_ptr`; short ranges are masked into
    /// one or two entries, longer ones go through `simd_mod`.
    pub fn mod_range(&mut self, bit_ptr: BitPtr, count: u64, value: bool)
        requires
            old(self).wf(),
            bit_ptr.spec_index() + count <= old(self).spec_n_bits(),
        ensures
            final(self).wf(),
            final(self).spec_n_bits() == old(self).spec_n_bits(),
            final(self).spec_base() == old(self).spec_base(),
            range_written(
                old(self).entries(),
                final(self).entries(),
                bit_ptr.spec_index(),
                bit_ptr.spec_index() + count,
                value,
            ),
    {
        let ghost old_e = self.entries();
        let start_bit = bit_ptr.bit_index();
        let entry_index = bit_ptr.entry_index();
        let bit_offset = bit_ptr.bit_offset();
        let len = self.data.len();
        if count == 0 {
            assert(old_e =~= self.entries());
            return;
        }
        assert(entry_index < len);
        let e = entry_index as usize;
        if count < 64 || (bit_offset == 0 && count == 64) || (bit_offset == 0 && count <= 128) {
            match entry_mask(bit_offset, count) {
                Ok(mask) => {
                    self.write_mask(e, mask, value);
                    proof {
                        lemma_masked(old_e[e as int], mask, value, bit_offset as int, bit_offset + count);
                    }
                },
                Err((mask, remaining)) => {
                    self.write_mask(e, mask, value);
                    let m2 = bit_run_mask(remaining);
                    self.write_mask(e + 1, m2, value);
                    proof {
                        lemma_masked(old_e[e as int], mask, value, bit_offset as int, 64);
                        lemma_masked(old_e[e + 1], m2, value, 0, remaining as int);
                    }
                },
            }
            return;
        }
        self.simd_mod(e, bit_offset, count, value);
    }

    /// Writes `value` into a range of at least one entry's worth of bits: the partial first
    /// and last entries are masked, the entries between are filled 4 at a time while at least
    /// one entry remains after the block, and the rest one at a time.
    pub fn simd_mod(&mut self, start_entry: usize, bit_offset: u8, count: u64, value: bool)
        requires
            old(self).wf(),
            bit_offset < 64,
            count >= 64,
            !(bit_offset == 0 && count <= 128),
            start_entry * 64 + bit_offset + count <= old(self).entries().len() * 64,
        ensures
            final(self).wf(),
            final(self).spec_n_bits() == old(self).spec_n_bits(),
            final(self).spec_base() == old(self).spec_base(),
            range_written(
                old(self).entries(),
                final(self).entries(),
                start_entry * 64 + bit_offset,
                start_entry * 64 + bit_offset + count,
                value,
            ),
    {
        let ghost old_e = self.entries();
        let len = self.data.len();
        let (start_mask, remaining) = match entry_mask(bit_offset, count) {
            Ok(_) => {
                assert(false);
                return;
            },
            Err(p) => p,
        };
        let needed_entries = remaining / 64 + if remaining % 64 == 0 {
            0
        } else {
            1
        };
        let modulo = remaining % 64;
        let end_mask = if modulo == 0 {
            u64::MAX
        } else {
            bit_run_mask(modulo)
        };
        let ghost end_hi: int = if modulo == 0 {
            64
        } else {
            modulo as int
        };
        proof {
            lemma_run_mask(64);
            lemma_run_mask(modulo);
        }
        assert(is_mask_of(end_mask, 0, end_hi));
        assert(start_entry + needed_entries < len) by {
            assert(remaining == bit_offset + count - 64);
            assert((remaining / 64) * 64 + remaining % 64 == remaining);
        }
        let end_entry = start_entry + needed_entries as usize;
        self.write_mask(start_entry, start_mask, value);
        self.write_mask(end_entry, end_mask, value);
        let full_start = start_entry + 1;
        let full_end = end_entry - 1;
        let mut i = full_start;
        while i <= full_end && full_end - i >= 4
            invariant
                self.wf(),
                self.spec_n_bits() == old(self).spec_n_bits(),
                self.spec_base() == old(self).spec_base(),
                self.entries().len() == old_e.len(),
                len == old_e.len(),
                full_start <= i <= full_end + 1,
                full_start == start_entry + 1,
                full_end + 1 == end_entry,
                end_entry < len,
                forall|e: int|
                    0 <= e < len ==> #[trigger] self.entries()[e] == (if e == start_entry {
                        masked(old_e[e], start_mask, value)
                    } else if e == end_entry {
                        masked(old_e[e], end_mask, value)
                    } else if full_start <= e < i {
                        masked(old_e[e], u64::MAX, value)
                    } else {
                        old_e[e]
                    }),
            decreases full_end - i,
        {
            let src = self.get_vec(i);
            let res: [u64; 4] = if value {
                [src[0] | u64::MAX, src[1] | u64::MAX, src[2] | u64::MAX, src[3] | u64::MAX]
            } else {
                [src[0] & !u64::MAX, src[1] & !u64::MAX, src[2] & !u64::MAX, src[3] & !u64::MAX]
            };
            self.set_vec(i, res);
            i = i + 4;
        }
        while i <= full_end
            invariant
                self.wf(),
                self.spec_n_bits() == old(self).spec_n_bits(),
                self.spec_base() == old(self).spec_base(),
                self.entries().len() == old_e.len(),
                len == old_e.len(),
                full_start <= i <= full_end + 1,
                full_start == start_entry + 1,
                full_end + 1 == end_entry,
                end_entry < len,
                forall|e: int|
                    0 <= e < len ==> #[trigger] self.entries()[e] == (if e == start_entry {
                        masked(old_e[e], start_mask, value)
                    } else if e == end_entry {
                        masked(old_e[e], end_mask, value)
                    } else if full_start <= e < i {
                        masked(old_e[e], u64::MAX, value)
                    } else {
                        old_e[e]
                    }),
            decreases full_end + 1 - i,
        {
            self.write_mask(i, u64::MAX, value);
            i = i + 1;
        }
        proof {
            let lo = start_entry * 64 + bit_offset;
            let hi = lo + count;
            assert forall|e: int, j: u64| 0 <= e < old_e.len() && j < 64 implies #[trigger] bit_at(
                self.entries()[e],
                j,
            ) == (if lo <= e * 64 + j < hi {
                value
            } else {
                bit_at(old_e[e], j)
            }) by {
                if e == start_entry {
                    lemma_masked(old_e[e], start_mask, value, bit_offset as int, 64);
                } else if e == end_entry {
                    lemma_masked(old_e[e], end_mask, value, 0, end_hi);
                    assert(hi == end_entry * 64 + end_hi);
                } else if full_start <= e < end_entry {
                    lemma_masked(old_e[e], u64::MAX, value, 0, 64);
                } else {
                }
            }
        }
    }

    /// Checks whether any of the `n_bits` bits starting at `bit_ptr` are set.
    pub fn bits_are_set(&self, bit_ptr: BitPtr, n_bits: u64) -> (r: bool)
        requires
            self.wf(),
            bit_ptr.spec_index() + n_bits <= self.entries().len() * 64,
        ensures
            r == any_set_in(self.entries(), bit_ptr.spec_index(), bit_ptr.spec_index() + n_bits),
    {
        let start = bit_ptr.bit_index();
        let end = start + n_bits;
        let mut pos = start;
        while pos < end
            invariant
                self.wf(),
                start == bit_ptr.spec_index(),
                end == start + n_bits,
                end <= self.entries().len() * 64,
                start <= pos <= end,
                !any_set_in(self.entries(), start as int, pos as int),
            decreases end - pos,
        {
            let len = self.data.len();
            assert(pos / 64 < len);
            let e = (pos / 64) as usize;
            let off = pos % 64;
            assert(pos == e * 64 + off);
            let take = if end - pos < 64 - off {
                end - pos
            } else {
                64 - off
            };
            let mask = bit_run_mask(take) << off;
            proof {
                lemma_shifted_run_mask(take, off);
            }
            let w = self.data[e];
            if w & mask != 0 {
                proof {
                    lemma_bit_ops(w, mask);
                    let j = crate::bits::lowest_set_bit(w & mask);
                    assert(bit_at(self.entries()[e as int], j));
                    assert(start <= e * 64 + j < end);
                }
                return true;
            }
            proof {
                lemma_bit_ops(w, mask);
                crate::bits::lemma_zero_bits(w & mask);
                assert forall|e2: int, j: u64|
                    0 <= e2 < self.entries().len() && j < 64 && start <= e2 * 64 + j < pos + take
                        implies !#[trigger] bit_at(self.entries()[e2], j) by {
                    if e2 * 64 + j >= pos {
                        assert(e2 == e);
                        assert(!bit_at(w & mask, j));
                    }
                }
            }
            pos = pos + take;
        }
        false
    }

    /// Checks whether all of the `n_bits` bits starting at `bit_ptr` are set.
    pub fn all_are_set(&self, bit_ptr: BitPtr, n_bits: u64) -> (r: bool)
        requires
            self.wf(),
            bit_ptr.spec_index() + n_bits <= self.entries().len() * 64,
        ensures
            r == all_set_in(self.entries(), bit_ptr.spec_index(), bit_ptr.spec_index() + n_bits),
    {
        let start = bit_ptr.bit_index();
        let end = start + n_bits;
        let mut pos = start;
        while pos < end
            invariant
                self.wf(),
                start == bit_ptr.spec_index(),
                end == start + n_bits,
                end <= self.entries().len() * 64,
                start <= pos <= end,
                all_set_in(self.entries(), start as int, pos as int),
            decreases end - pos,
        {
            let len = self.data.len();
            assert(pos / 64 < len);
            let e = (pos / 64) as usize;
            let off = pos % 64;
            assert(pos == e * 64 + off);
            let take = if end - pos < 64 - off {
                end - pos
            } else {
                64 - off
            };
            let mask = bit_run_mask(take) << off;
            proof {
                lemma_shifted_run_mask(take, off);
            }
            let w = self.data[e];
            if w & mask != mask {
                proof {
                    lemma_bit_ops(w, mask);
                    lemma_bit_ops(mask, w);
                    assert((w & mask) != mask ==> mask & !w != 0) by (bit_vector);
                    let j = crate::bits::lowest_set_bit(mask & !w);
                    assert(!bit_at(self.entries()[e as int], j));
                    assert(start <= e * 64 + j < end);
                }
                return false;
            }
            proof {
                lemma_bit_ops(w, mask);
                assert forall|e2: int, j: u64|
                    0 <= e2 < self.entries().len() && j < 64 && start <= e2 * 64 + j < pos + take
                        implies #[trigger] bit_at(self.entries()[e2], j) by {
                    if e2 * 64 + j >= pos {
                        assert(e2 == e);
                        assert(bit_at(mask, j));
                    }
                }
            }
            pos = pos + take;
        }
        true
    }

    /// Finds the lowest clear bit of the bitmap, or `None` if every bit in use is set.
    pub fn first_clear(&self) -> (r: Option<BitPtr>)
        requires
            self.wf(),
        ensures
            r matches Some(p) ==> {
                &&& p.spec_index() < self.spec_n_bits()
                &&& !bit_at(self.entries()[p.spec_entry() as int], p.spec_offset())
                &&& all_set_in(self.entries(), 0, p.spec_index())
            },
            r is None <==> all_set_in(self.entries(), 0, self.spec_n_bits() as int),
    {
        let len = self.data.len();
        let n_bits = self.n_bits;
        let mut e: usize = 0;
        while e < len
            invariant
                self.wf(),
                len == self.entries().len(),
                n_bits == self.spec_n_bits(),
                e <= len,
                all_set_in(self.entries(), 0, e * 64),
            decreases len - e,
        {
            let w = self.data[e];
            if w != u64::MAX {
                let t = w.trailing_ones() as u64;
                proof {
                    vstd::std_specs::bits::axiom_u64_trailing_ones(w);
                }
                let p = BitPtr::new(e as u64, t as u8);
                proof {
                    assert forall|e2: int, j: u64|
                        0 <= e2 < self.entries().len() && j < 64 && 0 <= e2 * 64 + j < p.spec_index()
                            implies #[trigger] bit_at(self.entries()[e2], j) by {
                        if e2 == e {
                            assert(j < t);
                        }
                    }
                }
                if e as u64 * 64 + t >= n_bits {
                    proof {
                        assert forall|e2: int, j: u64|
                            0 <= e2 < self.entries().len() && j < 64 && 0 <= e2 * 64 + j < n_bits
                                implies #[trigger] bit_at(self.entries()[e2], j) by {
                            assert(e2 * 64 + j < p.spec_index());
                        }
                    }
                    return None;
                }
                proof {
                    assert(!bit_at(self.entries()[e as int], t));
                    assert(!all_set_in(self.entries(), 0, self.spec_n_bits() as int));
                }
                return Some(p);
            }
            proof {
                assert forall|e2: int, j: u64|
                    0 <= e2 < self.entries().len() && j < 64 && 0 <= e2 * 64 + j < (e + 1) * 64
                        implies #[trigger] bit_at(self.entries()[e2], j) by {
                    if e2 == e {
                        crate::bits::lemma_zero_and_full();
                    }
                }
            }
            e = e + 1;
        }
        proof {
            assert forall|e2: int, j: u64|
                0 <= e2 < self.entries().len() && j < 64 && 0 <= e2 * 64 + j < self.spec_n_bits()
                    implies #[trigger] bit_at(self.entries()[e2], j) by {
                assert(e2 * 64 + j < len * 64);
            }
        }
        None
    }

    /// Allocates a contiguous run of `n_bits` clear bits aligned to `align` bits, sets them and
    /// returns a pointer to the first, or returns `None` when no suitable run is found.
    ///
    /// A run of up to 64 bits is the lowest aligned place where all its bits are clear, whether
    /// it lies in one entry or crosses into the next; longer runs go through the chunk search
    /// of `allocate_large`. Either way `None` means there is no such place.
    pub fn allocate(&mut self, n_bits: u64, align: Alignment) -> (r: Option<BitPtr>)
        requires
            old(self).wf(),
        ensures
            final(self).wf(),
            final(self).spec_n_bits() == old(self).spec_n_bits(),
            final(self).spec_base() == old(self).spec_base(),
            match bitmap_search(old(self).entries(), old(self).spec_n_bits(), n_bits as int, align@) {
                Some(i) => r matches Some(p) && p.spec_index() == i,
                None => r is None,
            },
            r matches Some(p) ==> fits_at(
                old(self).entries(),
                old(self).spec_n_bits(),
                p.spec_index(),
                n_bits as int,
                align@ as int,
            ) && range_written(
                old(self).entries(),
                final(self).entries(),
                p.spec_index(),
                p.spec_index() + n_bits,
                true,
            ),
            r is None ==> final(self).entries() == old(self).entries(),
            r is None ==> forall|i: int|
                #![trigger fits_at(old(self).entries(), old(self).spec_n_bits(), i, n_bits as int, align@ as int)]
                0 <= i ==> !fits_at(old(self).entries(), old(self).spec_n_bits(), i, n_bits as int, align@ as int),
    {
        if n_bits > 64 {
            let k = align.log2();
            let ghost before = self.entries();
            let ghost nt = self.spec_n_bits();
            let r = self.allocate_large(n_bits, align);
            proof {
                if r is None {
                    assert forall|i: int|
                        #![trigger fits_at(before, nt, i, n_bits as int, align@ as int)]
                        0 <= i implies !fits_at(before, nt, i, n_bits as int, align@ as int) by {
                        if fits_at(before, nt, i, n_bits as int, align@ as int) {
                            lemma_search_from_complete(before, nt, n_bits as int, k, i);
                        }
                    }
                }
            }
            return r;
        }
        let a = align.as_u64();
        let n_total = self.n_bits;
        let ghost s = self.entries();
        proof {
            assert(a > 0);
        }
        if n_bits > n_total {
            proof {
                lemma_fit_from_complete(s, n_total, n_bits as int, a as int, 0);
            }
            return None;
        }
        let mut i: u64 = 0;
        while i <= n_total - n_bits
            invariant
                self.wf(),
                *self == *old(self),
                s == self.entries(),
                n_total == self.spec_n_bits(),
                n_bits <= 64,
                n_bits <= n_total,
                a == align@,
                a > 0,
                i % a == 0,
                i <= n_total,
                fit_from(s, n_total, n_bits as int, a as int, 0) == fit_from(s, n_total, n_bits as int, a as int, i as int),
                forall|j: int| 0 <= j < i && j % (a as int) == 0 ==> !#[trigger] fits_at(s, n_total, j, n_bits as int, a as int),
            decreases n_total - i,
        {
            let p = BitPtr::new_wrapping(0, i);
            if !self.bits_are_set(p, n_bits) {
                self.set(p, n_bits);
                return Some(p);
            }
            proof {
                assert(!fits_at(s, n_total, i as int, n_bits as int, a as int));
            }
            if a > n_total - i {
                proof {
                    assert forall|j: int| 0 <= j && j % (a as int) == 0 implies !#[trigger] fits_at(s, n_total, j, n_bits as int, a as int) by {
                        if j > i {
                            lemma_next_aligned(i as int, j, a as int);
                        }
                    }
                }
                return None;
            }
            proof {
                vstd::arithmetic::div_mod::lemma_mod_add_multiples_vanish(i as int, a as int);
                assert forall|j: int| 0 <= j < i + a && j % (a as int) == 0 implies !#[trigger] fits_at(s, n_total, j, n_bits as int, a as int) by {
                    if j > i {
                        lemma_next_aligned(i as int, j, a as int);
                    }
                }
            }
            i = i + a;
        }
        proof {
            lemma_fit_from_complete(s, n_total, n_bits as int, a as int, i as int);
        }
        None
    }

    /// Allocates a run of more than 64 bits. With alignments above 64 bits only whole, empty
    /// entries at aligned chunk starts are tried; otherwise every entry is tried at the first
    /// aligned bit after its highest set bit.
    fn allocate_large(&mut self, n_bits: u64, align: Alignment) -> (r: Option<BitPtr>)
        requires
            old(self).wf(),
            n_bits > 64,
        ensures
            final(self).wf(),
            final(self).spec_n_bits() == old(self).spec_n_bits(),
            final(self).spec_base() == old(self).spec_base(),
            match search_from(old(self).entries(), old(self).spec_n_bits(), n_bits as int, align@, 0) {
                Some(i) => r matches Some(p) && p.spec_index() == i,
                None => r is None,
            },
            r matches Some(p) ==> fits_at(
                old(self).entries(),
                old(self).spec_n_bits(),
                p.spec_index(),
                n_bits as int,
                align@ as int,
            ) && range_written(
                old(self).entries(),
                final(self).entries(),
                p.spec_index(),
                p.spec_index() + n_bits,
                true,
            ),
            r is None ==> final(self).entries() == old(self).entries(),
    {
        let k = align.log2();
        let a = align.as_u64();
        let per_entry_align = a > 64;
        let entries = self.aligned_entries(align);
        let mut idx: usize = 0;
        let mut res: Option<BitPtr> = None;
        proof {
            lemma_pow2_and_64(k);
        }
        while idx < entries.len() && res.is_none()
            invariant
                self.wf(),
                self == old(self),
                k < 64,
                a == align@,
                a == 1u64 << k,
                per_entry_align == (a > 64),
                k <= 6 <==> a <= 64,
                idx <= entries@.len(),
                n_bits > 64,
                forall|k2: int|
                    0 <= k2 < entries@.len() ==> (#[trigger] entries@[k2]).0 == k2 * entry_skip(a)
                        && entries@[k2].0 < self.entries().len() && entries@[k2].1
                        == self.entries()[entries@[k2].0 as int],
                entries@.len() * entry_skip(a) >= self.entries().len(),
                res matches Some(p) ==> fits_at(
                    self.entries(),
                    self.spec_n_bits(),
                    p.spec_index(),
                    n_bits as int,
                    a as int,
                ),
                res is None ==> search_from(self.entries(), self.spec_n_bits(), n_bits as int, a, 0)
                    == search_from(self.entries(), self.spec_n_bits(), n_bits as int, a, idx as int),
                res matches Some(p) ==> search_from(self.entries(), self.spec_n_bits(), n_bits as int, a, 0)
                    == Some(p.spec_index()),
            decreases entries@.len() - idx,
        {
            let (ind, entry) = entries[idx];
            let in_range = n_bits <= self.n_bits && (ind as u64) * 64 <= self.n_bits - n_bits;
            if per_entry_align {
                if entry == 0 && in_range {
                    let bitptr = BitPtr::entry(ind as u64);
                    if !self.bits_are_set(bitptr, n_bits) {
                        proof {
                            lemma_pow2_mask(0, k);
                            lemma_aligned_index(k, idx as int, 0);
                        }
                        res = Some(bitptr);
                    }
                }
            } else {
                let end_free = entry.leading_zeros() as u64;
                proof {
                    vstd::std_specs::bits::axiom_u64_leading_zeros(entry);
                    lemma_pow2_mask(0, k);
                }
                let offset = 64 - end_free;
                let rounded = align_up(offset, k);
                if rounded < 64 && n_bits <= self.n_bits && (ind as u64) * 64 + rounded
                    <= self.n_bits - n_bits {
                    let bitptr = BitPtr::new(ind as u64, rounded as u8);
                    if !self.bits_are_set(bitptr, n_bits) {
                        proof {
                            lemma_aligned_index(k, idx as int, rounded as int);
                        }
                        res = Some(bitptr);
                    }
                }
            }
            proof {
                let ii = idx as int;
                assert(ind == ii * entry_skip(a));
                if res is None {
                    assert(pick_in_entry(self.entries(), self.spec_n_bits(), n_bits as int, a as int, ind as int) is None);
                    assert(search_from(self.entries(), self.spec_n_bits(), n_bits as int, a, ii)
                        == search_from(self.entries(), self.spec_n_bits(), n_bits as int, a, ii + 1));
                } else {
                    assert(pick_in_entry(self.entries(), self.spec_n_bits(), n_bits as int, a as int, ind as int)
                        == Some(res->Some_0.spec_index()));
                }
            }
            idx = idx + 1;
        }
        proof {
            if res is None {
                assert(idx as int * entry_skip(a) >= self.entries().len());
            }
        }
        match res {
            Some(p) => {
                self.set(p, n_bits);
                Some(p)
            },
            None => None,
        }
    }
}

} // verus!
