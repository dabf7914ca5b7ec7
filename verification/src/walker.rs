//! Walking the bootloader's memory map to hand out the first frames, before any allocator
//! exists.
use vstd::prelude::*;
use arrayvec::ArrayVec;
use crate::align::align_up_spec;
use crate::addr::PhysAddr;
use crate::arch::{valid_phys, PHYSICAL_ADDRESS_MAX};
use crate::primitives::{FragmentSize, Frame, MemoryRange, is_page_size};
use crate::mem::MemError;
use crate::managers::{FragmentManager, FullManager};

verus! {

/// The kind of a memory-map entry, as the bootloader reports it.
#[allow(non_camel_case_types)]
#[derive(Clone, Copy, PartialEq, Eq, Structural, Debug)]
pub enum EntryType {
    /// Free memory.
    USABLE,
    /// Memory in use by the firmware or the hardware.
    RESERVED,
    /// ACPI tables that may be reclaimed once read.
    ACPI_RECLAIMABLE,
    /// ACPI non-volatile storage.
    ACPI_NVS,
    /// Faulty memory.
    BAD_MEMORY,
    /// Memory the bootloader used, which may be reclaimed.
    BOOTLOADER_RECLAIMABLE,
    /// The kernel image and its modules.
    EXECUTABLE_AND_MODULES,
    /// The framebuffer.
    FRAMEBUFFER,
    /// A kind this library does not know, with its raw value.
    Unknown(u64),
}

impl EntryType {
    /// The former name of `EXECUTABLE_AND_MODULES`.
    pub const KERNEL_AND_MODULES: EntryType = EntryType::EXECUTABLE_AND_MODULES;
}

/// The lower-case name of an entry kind.
pub open spec fn entry_type_label(t: EntryType) -> Seq<char> {
    match t {
        EntryType::USABLE => "usable"@,
        EntryType::RESERVED => "reserved"@,
        EntryType::ACPI_RECLAIMABLE => "acpi_reclaimable"@,
        EntryType::ACPI_NVS => "acpi_nvs"@,
        EntryType::BAD_MEMORY => "bad_memory"@,
        EntryType::BOOTLOADER_RECLAIMABLE => "bootloader_reclaimable"@,
        EntryType::EXECUTABLE_AND_MODULES => "executable_and_modules"@,
        EntryType::FRAMEBUFFER => "framebuffer"@,
        EntryType::Unknown(_) => "unknown"@,
    }
}

/// The lower-case name of an entry kind, as the memory map is printed.
pub fn entry_type_name(t: EntryType) -> (r: &'static str)
    ensures
        r@ == entry_type_label(t),
{
    match t {
        EntryType::USABLE => "usable",
        EntryType::RESERVED => "reserved",
        EntryType::ACPI_RECLAIMABLE => "acpi_reclaimable",
        EntryType::ACPI_NVS => "acpi_nvs",
        EntryType::BAD_MEMORY => "bad_memory",
        EntryType::BOOTLOADER_RECLAIMABLE => "bootloader_reclaimable",
        EntryType::EXECUTABLE_AND_MODULES => "executable_and_modules",
        EntryType::FRAMEBUFFER => "framebuffer",
        EntryType::Unknown(_) => "unknown",
    }
}

/// One entry of the bootloader's memory map.
#[derive(Clone, Copy, PartialEq, Eq, Structural, Debug)]
pub struct LimineEntry {
    /// The base of the region, in physical space.
    pub base: u64,
    /// The length of the region in bytes.
    pub length: u64,
    /// The kind of the region.
    pub entry_type: EntryType,
}

/// A region of physical memory: a base address and a length in bytes.
#[derive(Clone, Copy, PartialEq, Eq, Structural, Debug)]
pub struct MemoryRegion {
    /// The base address of the region.
    pub base: u64,
    /// The length of the region in bytes.
    pub length: u64,
}

/// `base` rounded up to a multiple of `size`.
pub open spec fn aligned_base(base: u64, size: u64) -> int {
    align_up_spec(base as int, size as int)
}

/// A fragment of `size` bytes, aligned to `size`, fits in the region `(base, length)`.
pub open spec fn region_fits(base: u64, length: u64, size: u64) -> bool {
    length >= size + (aligned_base(base, size) - base)
}

impl MemoryRegion {
    /// The first address in this region that is a multiple of the size `S`, with its distance
    /// from the base, or `None` when a fragment of size `S` from there does not fit the region.
    /// Rounding up must not overflow, and a fitting address must be a valid physical address.
    pub fn align_for_with_offset<S: FragmentSize>(&self) -> (r: Option<(PhysAddr, u64)>)
        requires
            self.base + S::spec_size() - 1 <= u64::MAX,
            region_fits(self.base, self.length, S::spec_size()) ==> aligned_base(
                self.base,
                S::spec_size(),
            ) <= PHYSICAL_ADDRESS_MAX,
        ensures
            r is Some <==> region_fits(self.base, self.length, S::spec_size()),
            r matches Some((a, off)) ==> a@ == aligned_base(self.base, S::spec_size()) && off
                == aligned_base(self.base, S::spec_size()) - self.base,
    {
        proof {
            S::lemma_size();
        }
        let s = S::size();
        let rem = self.base % s;
        proof {
            vstd::arithmetic::div_mod::lemma_mod_decreases(self.base as nat, s as nat);
        }
        let aligned: u64 = if rem == 0 {
            self.base
        } else {
            self.base - rem + s
        };
        let offset = aligned - self.base;
        if self.length >= s + offset {
            Some((PhysAddr::new(aligned), offset))
        } else {
            None
        }
    }

    /// The range of physical addresses this region covers; it must not be empty, and its end
    /// must be a valid physical address.
    pub fn to_range(&self) -> (r: MemoryRange<PhysAddr>)
        requires
            self.length > 0,
            self.base + self.length <= PHYSICAL_ADDRESS_MAX,
        ensures
            r.spec_start() == self.base,
            r.spec_end() == self.base + self.length,
    {
        MemoryRange::new_len(PhysAddr::new(self.base), self.length)
    }
}

impl From<LimineEntry> for MemoryRegion {
    fn from(entry: LimineEntry) -> (r: MemoryRegion)
        ensures
            r == (MemoryRegion { base: entry.base, length: entry.length }),
    {
        MemoryRegion { base: entry.base, length: entry.length }
    }
}

impl vstd::std_specs::convert::FromSpecImpl<LimineEntry> for MemoryRegion {
    open spec fn obeys_from_spec() -> bool {
        true
    }

    open spec fn from_spec(entry: LimineEntry) -> MemoryRegion {
        MemoryRegion { base: entry.base, length: entry.length }
    }
}

/// The most leftover fragments the walker keeps.
pub const MAX_FRAGMENTS: usize = 64usize;

#[verifier::external_type_specification]
#[verifier::external_body]
#[verifier::reject_recursive_types(T)]
pub struct ExArrayVec<T, const CAP: usize>(ArrayVec<T, CAP>);

/// What a list of leftover fragments holds: the `(base, length)` of each, in order.
pub uninterp spec fn fragment_list(v: ArrayVec<(u64, u64), 64>) -> Seq<(u64, u64)>;

/// `ArrayVec::new`: an empty list.
#[verifier::external_body]
fn fragments_new() -> (r: ArrayVec<(u64, u64), 64>)
    ensures
        fragment_list(r) == Seq::<(u64, u64)>::empty(),
{
    ArrayVec::new()
}

/// `ArrayVec::len`: the number of items, which never exceeds the capacity.
#[verifier::external_body]
fn fragments_len(v: &ArrayVec<(u64, u64), 64>) -> (r: usize)
    ensures
        r == fragment_list(*v).len(),
        r <= 64,
{
    v.len()
}

/// Indexing the slice an `ArrayVec` dereferences to: the item at `i`, which must exist.
#[verifier::external_body]
fn fragments_get(v: &ArrayVec<(u64, u64), 64>, i: usize) -> (r: (u64, u64))
    requires
        i < fragment_list(*v).len(),
    ensures
        r == fragment_list(*v)[i as int],
{
    v[i]
}

/// Assigning through the slice an `ArrayVec` dereferences to: replaces the item at `i`,
/// which must exist.
#[verifier::external_body]
fn fragments_set(v: &mut ArrayVec<(u64, u64), 64>, i: usize, x: (u64, u64))
    requires
        i < fragment_list(*old(v)).len(),
    ensures
        fragment_list(*final(v)) == fragment_list(*old(v)).update(i as int, x),
{
    v[i] = x;
}

/// `ArrayVec::push`: appends `x`; the list must not be full, as the call panics then.
#[verifier::external_body]
fn fragments_push(v: &mut ArrayVec<(u64, u64), 64>, x: (u64, u64))
    requires
        fragment_list(*old(v)).len() < 64,
    ensures
        fragment_list(*final(v)) == fragment_list(*old(v)).push(x),
{
    v.push(x);
}

/// `ArrayVec::remove`: takes out the item at `i`, which must exist, and shifts the later
/// items down by one.
#[verifier::external_body]
fn fragments_remove(v: &mut ArrayVec<(u64, u64), 64>, i: usize) -> (r: (u64, u64))
    requires
        i < fragment_list(*old(v)).len(),
    ensures
        r == fragment_list(*old(v))[i as int],
        fragment_list(*final(v)) == fragment_list(*old(v)).remove(i as int),
{
    v.remove(i)
}

/// The key by which leftover fragments are ordered: their length.
fn fragment_key(f: &(u64, u64)) -> (r: u64)
    ensures
        r == f.1,
{
    f.1
}

/// Slice `sort_unstable_by_key` on the length: the same items, in an order of non-decreasing
/// length. Which of two items of equal length comes first is left open, as the sort is not
/// stable.
#[verifier::external_body]
fn fragments_sort_by_length(v: &mut ArrayVec<(u64, u64), 64>)
    ensures
        fragment_list(*final(v)).to_multiset() == fragment_list(*old(v)).to_multiset(),
        fragment_list(*final(v)).len() == fragment_list(*old(v)).len(),
        forall|i: int, j: int|
            0 <= i <= j < fragment_list(*final(v)).len() ==> (#[trigger] fragment_list(
                *final(v),
            )[i]).1 <= (#[trigger] fragment_list(*final(v))[j]).1,
{
    v.sort_unstable_by_key(fragment_key);
}

/// The entry is free memory.
pub open spec fn is_usable(e: LimineEntry) -> bool {
    e.entry_type == EntryType::USABLE
}

/// The entry counts toward the usable memory: free memory, or memory that may be reclaimed.
pub open spec fn counts_as_usable(e: LimineEntry) -> bool {
    e.entry_type == EntryType::USABLE || e.entry_type == EntryType::BOOTLOADER_RECLAIMABLE
        || e.entry_type == EntryType::ACPI_RECLAIMABLE
}

/// The region an entry describes.
pub open spec fn region_of(e: LimineEntry) -> MemoryRegion {
    MemoryRegion { base: e.base, length: e.length }
}

/// Every usable entry ends within the physical address width.
pub open spec fn entries_fit(es: Seq<&LimineEntry>) -> bool {
    forall|k: int|
        0 <= k < es.len() && is_usable(*#[trigger] es[k]) ==> es[k].base + es[k].length
            <= PHYSICAL_ADDRESS_MAX
}

/// The index of the first usable entry at `i` or after it, or the number of entries when
/// there is none.
pub open spec fn next_usable(es: Seq<&LimineEntry>, i: int) -> int
    decreases es.len() - i,
{
    if i >= es.len() {
        es.len() as int
    } else if is_usable(*es[i]) {
        i
    } else {
        next_usable(es, i + 1)
    }
}

/// The number of usable entries at `i` or after it.
pub open spec fn usable_count(es: Seq<&LimineEntry>, i: int) -> nat
    decreases es.len() - i,
{
    if i >= es.len() {
        0
    } else {
        usable_count(es, i + 1) + if is_usable(*es[i]) {
            1nat
        } else {
            0nat
        }
    }
}

/// The total length of the first `n` entries that count toward the usable memory.
pub open spec fn usable_total(es: Seq<&LimineEntry>, n: int) -> int
    decreases n,
{
    if n <= 0 {
        0
    } else {
        usable_total(es, n - 1) + if counts_as_usable(*es[n - 1]) {
            es[n - 1].length as int
        } else {
            0
        }
    }
}

/// The regions of the usable entries among the first `n`, in order.
pub open spec fn usable_regions(es: Seq<&LimineEntry>, n: int) -> Seq<MemoryRegion>
    decreases n,
{
    if n <= 0 {
        Seq::empty()
    } else if is_usable(*es[n - 1]) {
        usable_regions(es, n - 1).push(region_of(*es[n - 1]))
    } else {
        usable_regions(es, n - 1)
    }
}

/// What is left of a region `(base, length)` after a fragment of `size` bytes, aligned to
/// `size`, is carved from its start.
pub open spec fn carve(base: u64, length: u64, size: u64) -> (u64, u64) {
    (
        (aligned_base(base, size) + size) as u64,
        (length - size - (aligned_base(base, size) - base)) as u64,
    )
}

/// The index of the first fragment at `i` or after it that a fragment of `size` bytes fits.
pub open spec fn first_fit(frags: Seq<(u64, u64)>, size: u64, i: int) -> Option<int>
    decreases frags.len() - i,
{
    if i >= frags.len() {
        None
    } else if region_fits(frags[i].0, frags[i].1, size) {
        Some(i)
    } else {
        first_fit(frags, size, i + 1)
    }
}

/// The leftover fragment a request of `size` bytes is served from: the first that fits,
/// looked for only when the list is not empty and its last fragment is at least `size` long.
pub open spec fn pick_fragment(frags: Seq<(u64, u64)>, size: u64) -> Option<int> {
    if frags.len() == 0 || frags.last().1 < size {
        None
    } else {
        first_fit(frags, size, 0)
    }
}

/// The fragments after a request of `size` bytes was served from fragment `i`: what is left of
/// it takes its place, or it leaves the list when nothing is left.
pub open spec fn take_fragment(frags: Seq<(u64, u64)>, i: int, size: u64) -> Seq<(u64, u64)> {
    let c = carve(frags[i].0, frags[i].1, size);
    if c.1 == 0 {
        frags.remove(i)
    } else {
        frags.update(i, c)
    }
}

/// The fragments are in order of non-decreasing length.
pub open spec fn sorted_by_length(frags: Seq<(u64, u64)>) -> bool {
    forall|i: int, j: int| 0 <= i <= j < frags.len() ==> (#[trigger] frags[i]).1 <= (#[trigger] frags[j]).1
}

/// `after` holds the items of `before`, ordered by non-decreasing length.
pub open spec fn sorted_permutation(after: Seq<(u64, u64)>, before: Seq<(u64, u64)>) -> bool {
    &&& after.to_multiset() == before.to_multiset()
    &&& after.len() == before.len()
    &&& sorted_by_length(after)
}

/// The state of a walk as the contracts see it: the index of the current entry, what is left
/// of the current region, and the leftover fragments in their order.
pub type WalkState = (int, MemoryRegion, Seq<(u64, u64)>);

/// The invariant of a walk over the entries `es`.
pub open spec fn walk_ok(es: Seq<&LimineEntry>, s: WalkState) -> bool {
    &&& 0 <= s.0 <= es.len()
    &&& entries_fit(es)
    &&& (s.0 < es.len() ==> {
        &&& is_usable(*es[s.0])
        &&& es[s.0].base <= s.1.base
        &&& s.1.base + s.1.length <= es[s.0].base + es[s.0].length
    })
    &&& s.1.base + s.1.length <= PHYSICAL_ADDRESS_MAX
    &&& frags_fit(s.2)
}

/// Every fragment is non-empty and ends within the physical address width.
pub open spec fn frags_fit(frags: Seq<(u64, u64)>) -> bool {
    forall|k: int|
        0 <= k < frags.len() ==> 0 < (#[trigger] frags[k]).1 && frags[k].0 + frags[k].1
            <= PHYSICAL_ADDRESS_MAX
}

/// `t` is `s` after moving on to the next usable entry: the current region, unless empty,
/// joins the fragments, which are then sorted by length; the current region becomes the next
/// usable entry, or stays as it was when there is none.
pub open spec fn advanced(es: Seq<&LimineEntry>, s: WalkState, t: WalkState) -> bool {
    let n = next_usable(es, s.0 + 1);
    &&& t.0 == n
    &&& t.1 == (if n < es.len() {
        region_of(*es[n])
    } else {
        s.1
    })
    &&& (if s.1.length != 0 {
        sorted_permutation(t.2, s.2.push((s.1.base, s.1.length)))
    } else {
        t.2 == s.2
    })
}

/// A request for `size` bytes, aligned to `size`, takes the walk over `es` from `s` to `t` and
/// hands out the fragment at `r`, or nothing (`None`):
/// - from the leftover fragment that `pick_fragment` chooses, if any;
/// - otherwise nothing, when the walk is past the last entry;
/// - otherwise from the start of the current region, when it fits there; when nothing of the
///   region is left, the walk moves on to the next usable entry;
/// - otherwise the walk moves on, and the request is made again there, or fails when there is
///   no usable entry left.
pub open spec fn allocation(es: Seq<&LimineEntry>, s: WalkState, t: WalkState, r: Option<u64>, size: u64) -> bool
    decreases es.len() - s.0,
{
    match pick_fragment(s.2, size) {
        Some(i) => r == Some(aligned_base(s.2[i].0, size) as u64) && t == (s.0, s.1, take_fragment(s.2, i, size)),
        None => if s.0 < 0 || s.0 >= es.len() {
            r is None && t == s
        } else if region_fits(s.1.base, s.1.length, size) {
            let c = carve(s.1.base, s.1.length, size);
            &&& r == Some(aligned_base(s.1.base, size) as u64)
            &&& if c.1 == 0 {
                advanced(es, (s.0, MemoryRegion { base: s.1.base, length: 0 }, s.2), t)
            } else {
                t == (s.0, MemoryRegion { base: c.0, length: c.1 }, s.2)
            }
        } else {
            exists|m: WalkState| #[trigger] advanced(es, s, m) && if m.0 < es.len() {
                m.0 > s.0 && allocation(es, m, t, r, size)
            } else {
                r is None && t == m
            }
        },
    }
}

/// Facts about `next_usable`: it lies between `i` and the end, is usable when before the end,
/// and skips only entries that are not usable, so the usable count does not change.
pub proof fn lemma_next_usable(es: Seq<&LimineEntry>, i: int)
    requires
        0 <= i <= es.len(),
    ensures
        i <= next_usable(es, i) <= es.len(),
        next_usable(es, i) < es.len() ==> is_usable(*es[next_usable(es, i)]),
        forall|k: int| i <= k < next_usable(es, i) ==> !is_usable(*#[trigger] es[k]),
        usable_count(es, i) == usable_count(es, next_usable(es, i)),
    decreases es.len() - i,
{
    if i < es.len() && !is_usable(*es[i]) {
        lemma_next_usable(es, i + 1);
    }
}

/// When no entry in `[a, c)` is usable, the first usable entry from `a` is the one from `c`.
pub proof fn lemma_next_usable_skip(es: Seq<&LimineEntry>, a: int, c: int)
    requires
        0 <= a <= c <= es.len(),
        forall|k: int| a <= k < c ==> !is_usable(*#[trigger] es[k]),
    ensures
        next_usable(es, a) == next_usable(es, c),
    decreases c - a,
{
    if a < c {
        lemma_next_usable_skip(es, a + 1, c);
    }
}

/// The running total of usable lengths only grows.
pub proof fn lemma_usable_total_mono(es: Seq<&LimineEntry>, i: int, n: int)
    requires
        0 <= i <= n,
    ensures
        usable_total(es, i) <= usable_total(es, n),
    decreases n - i,
{
    if i < n {
        lemma_usable_total_mono(es, i, n - 1);
    }
}

/// A permutation of fragments that all end within the address width ends within it too.
proof fn lemma_permutation_bounded(after: Seq<(u64, u64)>, before: Seq<(u64, u64)>)
    requires
        after.to_multiset() == before.to_multiset(),
        frags_fit(before),
    ensures
        frags_fit(after),
{
    after.to_multiset_ensures();
    before.to_multiset_ensures();
    assert forall|k: int| 0 <= k < after.len() implies 0 < (#[trigger] after[k]).1 && after[k].0
        + after[k].1 <= PHYSICAL_ADDRESS_MAX by {
        assert(after.contains(after[k]));
        assert(after.to_multiset().count(after[k]) > 0);
        assert(before.to_multiset().count(after[k]) > 0);
        assert(before.contains(after[k]));
    }
}

/// Address `a` lies in the piece `(base, length)`.
pub open spec fn in_piece(p: (u64, u64), a: int) -> bool {
    p.0 <= a < p.0 + p.1
}

/// Address `a` is still free in the walk state `s` over `es`: in a leftover fragment, in what
/// is left of the current region, or in a usable entry after the current one.
pub open spec fn free_in(es: Seq<&LimineEntry>, s: WalkState, a: int) -> bool {
    ||| in_fragments(s.2, a)
    ||| (0 <= s.0 < es.len() && in_piece((s.1.base, s.1.length), a))
    ||| in_later_entry(es, s.0, a)
}

/// Address `a` lies in one of the fragments.
pub open spec fn in_fragments(frags: Seq<(u64, u64)>, a: int) -> bool {
    exists|k: int| 0 <= k < frags.len() && #[trigger] in_piece(frags[k], a)
}

/// Address `a` lies in a usable entry after the one at `i`.
pub open spec fn in_later_entry(es: Seq<&LimineEntry>, i: int, a: int) -> bool {
    exists|j: int| i < j < es.len() && is_usable(*es[j]) && #[trigger] in_piece((es[j].base, es[j].length), a)
}

/// Moving on to the next usable entry keeps the walk consistent and frees nothing new.
proof fn lemma_advanced(es: Seq<&LimineEntry>, s: WalkState, t: WalkState)
    requires
        walk_ok(es, s),
        s.0 < es.len(),
        advanced(es, s, t),
    ensures
        walk_ok(es, t),
        t.0 > s.0,
        forall|a: int| free_in(es, t, a) ==> free_in(es, s, a),
{
    lemma_next_usable(es, s.0 + 1);
    let pushed = s.2.push((s.1.base, s.1.length));
    if s.1.length != 0 {
        assert forall|k: int| 0 <= k < pushed.len() implies 0 < (#[trigger] pushed[k]).1
            && pushed[k].0 + pushed[k].1 <= PHYSICAL_ADDRESS_MAX by {
            if k < s.2.len() {
                assert(pushed[k] == s.2[k]);
            }
        }
        lemma_permutation_bounded(t.2, pushed);
    }
    assert forall|a: int| free_in(es, t, a) implies free_in(es, s, a) by {
        if exists|k: int| 0 <= k < t.2.len() && #[trigger] in_piece(t.2[k], a) {
            let k = choose|k: int| 0 <= k < t.2.len() && #[trigger] in_piece(t.2[k], a);
            if s.1.length != 0 {
                t.2.to_multiset_ensures();
                pushed.to_multiset_ensures();
                assert(t.2.contains(t.2[k]));
                assert(t.2.to_multiset().count(t.2[k]) > 0);
                assert(pushed.contains(t.2[k]));
                let j = choose|j: int| 0 <= j < pushed.len() && pushed[j] == t.2[k];
                if j < s.2.len() {
                    assert(pushed[j] == s.2[j]);
                    assert(in_piece(s.2[j], a));
                }
            } else {
                assert(in_piece(s.2[k], a));
            }
        } else if 0 <= t.0 < es.len() && in_piece((t.1.base, t.1.length), a) {
            assert(in_piece((es[t.0].base, es[t.0].length), a));
        } else {
            let j = choose|j: int|
                t.0 < j < es.len() && is_usable(*es[j]) && #[trigger] in_piece(
                    (es[j].base, es[j].length),
                    a,
                );
            assert(in_piece((es[j].base, es[j].length), a));
        }
    }
}

/// Serving a request from the piece `p`, whose fragment fits it, leaves a piece inside `p`, and
/// the fragment handed out lies inside `p`.
proof fn lemma_carve_inside(p: (u64, u64), size: u64)
    requires
        is_page_size(size),
        region_fits(p.0, p.1, size),
        p.0 + p.1 <= PHYSICAL_ADDRESS_MAX,
    ensures
        forall|a: int| in_piece(carve(p.0, p.1, size), a) ==> in_piece(p, a),
        forall|a: int| aligned_base(p.0, size) <= a < aligned_base(p.0, size) + size ==> in_piece(p, a),
        carve(p.0, p.1, size).0 + carve(p.0, p.1, size).1 == p.0 + p.1,
{
    crate::align::lemma_align_up_arith(p.0 as int, size as int);
}

/// A request takes only free memory and frees nothing new: the fragment handed out was free
/// before, and every address free after was free before. The walk stays consistent.
pub proof fn lemma_allocation_takes_free_memory(
    es: Seq<&LimineEntry>,
    s: WalkState,
    t: WalkState,
    r: Option<u64>,
    size: u64,
)
    requires
        walk_ok(es, s),
        is_page_size(size),
        allocation(es, s, t, r, size),
    ensures
        walk_ok(es, t),
        r matches Some(f) ==> forall|a: int| f <= a < f + size ==> free_in(es, s, a),
        forall|a: int| free_in(es, t, a) ==> free_in(es, s, a),
    decreases es.len() - s.0,
{
    match pick_fragment(s.2, size) {
        Some(i) => {
            assert(first_fit(s.2, size, 0) == Some(i));
            lemma_first_fit(s.2, size, 0);
            let p = s.2[i];
            assert(frags_fit(s.2));
            lemma_carve_inside(p, size);
            crate::align::lemma_align_up_arith(p.0 as int, size as int);
            let c = carve(p.0, p.1, size);
            assert forall|k: int| 0 <= k < t.2.len() implies 0 < (#[trigger] t.2[k]).1 && t.2[k].0
                + t.2[k].1 <= PHYSICAL_ADDRESS_MAX by {
                if c.1 == 0 {
                    if k < i {
                        assert(t.2[k] == s.2[k]);
                    } else {
                        assert(t.2[k] == s.2[k + 1]);
                    }
                } else if k != i {
                    assert(t.2[k] == s.2[k]);
                }
            }
            if let Some(f) = r {
                assert forall|a: int| f <= a < f + size implies free_in(es, s, a) by {
                    assert(in_piece(s.2[i], a));
                }
            }
            assert forall|a: int| free_in(es, t, a) implies free_in(es, s, a) by {
                if exists|k: int| 0 <= k < t.2.len() && #[trigger] in_piece(t.2[k], a) {
                    let k = choose|k: int| 0 <= k < t.2.len() && #[trigger] in_piece(t.2[k], a);
                    if c.1 == 0 {
                        if k < i {
                            assert(t.2[k] == s.2[k]);
                            assert(in_piece(s.2[k], a));
                        } else {
                            assert(t.2[k] == s.2[k + 1]);
                            assert(in_piece(s.2[k + 1], a));
                        }
                    } else if k != i {
                        assert(t.2[k] == s.2[k]);
                        assert(in_piece(s.2[k], a));
                    } else {
                        assert(in_piece(s.2[i], a));
                    }
                }
            }
        },
        None => {
            if s.0 < 0 || s.0 >= es.len() {
            } else if region_fits(s.1.base, s.1.length, size) {
                let p = (s.1.base, s.1.length);
                lemma_carve_inside(p, size);
                let c = carve(s.1.base, s.1.length, size);
                if c.1 == 0 {
                    let z: WalkState = (s.0, MemoryRegion { base: s.1.base, length: 0 }, s.2);
                    lemma_advanced(es, z, t);
                    assert forall|a: int| free_in(es, z, a) implies free_in(es, s, a) by {
                    }
                } else {
                    assert forall|a: int| free_in(es, t, a) implies free_in(es, s, a) by {
                        if exists|k: int| 0 <= k < t.2.len() && #[trigger] in_piece(t.2[k], a) {
                            let k = choose|k: int| 0 <= k < t.2.len() && #[trigger] in_piece(t.2[k], a);
                            assert(in_piece(s.2[k], a));
                        }
                    }
                }
            } else {
                let m = choose|m: WalkState| #[trigger] advanced(es, s, m) && if m.0 < es.len() {
                    m.0 > s.0 && allocation(es, m, t, r, size)
                } else {
                    r is None && t == m
                };
                lemma_advanced(es, s, m);
                if m.0 < es.len() {
                    lemma_allocation_takes_free_memory(es, m, t, r, size);
                }
            }
        },
    }
}

/// `first_fit` from `i` finds an index at `i` or after it whose fragment fits.
proof fn lemma_first_fit(frags: Seq<(u64, u64)>, size: u64, i: int)
    requires
        0 <= i,
    ensures
        first_fit(frags, size, i) matches Some(k) ==> i <= k < frags.len() && region_fits(
            frags[k].0,
            frags[k].1,
            size,
        ),
    decreases frags.len() - i,
{
    if i < frags.len() && !region_fits(frags[i].0, frags[i].1, size) {
        lemma_first_fit(frags, size, i + 1);
    }
}

/// The pieces `p` and `q` share no address.
pub open spec fn apart(p: (u64, u64), q: (u64, u64)) -> bool {
    p.1 == 0 || q.1 == 0 || p.0 + p.1 <= q.0 || q.0 + q.1 <= p.0
}

/// The piece `p` lies inside the piece `q`.
pub open spec fn inside(p: (u64, u64), q: (u64, u64)) -> bool {
    p.1 == 0 || (q.0 <= p.0 && p.0 + p.1 <= q.0 + q.1)
}

/// The piece an entry covers.
pub open spec fn entry_piece(e: LimineEntry) -> (u64, u64) {
    (e.base, e.length)
}

/// No two usable entries of the memory map overlap.
pub open spec fn usable_apart(es: Seq<&LimineEntry>) -> bool {
    forall|i: int, j: int|
        0 <= i < es.len() && 0 <= j < es.len() && i != j && is_usable(*es[i]) && is_usable(*es[j])
            ==> apart(entry_piece(*#[trigger] es[i]), entry_piece(*#[trigger] es[j]))
}

/// The free pieces of the walk state `s` do not overlap: the usable entries do not, and no
/// leftover fragment overlaps another, the current region, or a usable entry after it.
pub open spec fn pieces_apart(es: Seq<&LimineEntry>, s: WalkState) -> bool {
    &&& usable_apart(es)
    &&& forall|i: int, j: int|
        0 <= i < s.2.len() && 0 <= j < s.2.len() && i != j ==> apart(#[trigger] s.2[i], #[trigger] s.2[j])
    &&& forall|i: int| 0 <= i < s.2.len() && s.0 < es.len() ==> apart(#[trigger] s.2[i], (s.1.base, s.1.length))
    &&& forall|i: int, j: int|
        0 <= i < s.2.len() && s.0 < j < es.len() && is_usable(*es[j]) ==> apart(
            #[trigger] s.2[i],
            entry_piece(*#[trigger] es[j]),
        )
}

/// A piece inside `q` is apart from what `q` is apart from; an address of a non-empty piece
/// is in no piece apart from it.
proof fn lemma_apart_facts(p: (u64, u64), q: (u64, u64), x: (u64, u64))
    ensures
        inside(p, q) && apart(q, x) ==> apart(p, x) && apart(x, p),
        apart(q, x) ==> apart(x, q),
        apart(q, x) ==> forall|a: int| in_piece(q, a) ==> !in_piece(x, a),
{
}

/// Nonempty pieces that pairwise share no address are distinct.
proof fn lemma_apart_distinct(f: Seq<(u64, u64)>)
    requires
        frags_fit(f),
        forall|i: int, j: int| 0 <= i < f.len() && 0 <= j < f.len() && i != j ==> apart(#[trigger] f[i], #[trigger] f[j]),
    ensures
        f.no_duplicates(),
{
    assert forall|i: int, j: int| 0 <= i < f.len() && 0 <= j < f.len() && i != j implies f[i] != f[j] by {
        assert(apart(f[i], f[j]));
        assert(0 < f[i].1);
    }
}

/// Moving on to the next usable entry keeps the free pieces apart.
proof fn lemma_advanced_apart(es: Seq<&LimineEntry>, s: WalkState, t: WalkState)
    requires
        walk_ok(es, s),
        pieces_apart(es, s),
        s.0 < es.len(),
        advanced(es, s, t),
    ensures
        pieces_apart(es, t),
{
    lemma_next_usable(es, s.0 + 1);
    lemma_advanced(es, s, t);
    let cur = (s.1.base, s.1.length);
    let ent = entry_piece(*es[s.0]);
    assert(inside(cur, ent));
    if s.1.length != 0 {
        let pushed = s.2.push(cur);
        assert forall|i: int, j: int| 0 <= i < pushed.len() && 0 <= j < pushed.len() && i != j implies apart(
            #[trigger] pushed[i],
            #[trigger] pushed[j],
        ) by {
            if i < s.2.len() && j < s.2.len() {
                assert(apart(s.2[i], s.2[j]));
            } else if i < s.2.len() {
                assert(apart(s.2[i], cur));
            } else {
                assert(apart(s.2[j], cur));
                lemma_apart_facts(s.2[j], s.2[j], cur);
            }
        }
        assert(frags_fit(pushed)) by {
            assert forall|k: int| 0 <= k < pushed.len() implies 0 < (#[trigger] pushed[k]).1
                && pushed[k].0 + pushed[k].1 <= PHYSICAL_ADDRESS_MAX by {
                if k < s.2.len() {
                    assert(pushed[k] == s.2[k]);
                }
            }
        }
        lemma_apart_distinct(pushed);
        pushed.lemma_multiset_has_no_duplicates();
        t.2.to_multiset_ensures();
        pushed.to_multiset_ensures();
        t.2.lemma_multiset_has_no_duplicates_conv();
        // Every fragment of `t` is one of `pushed`.
        assert forall|k: int| 0 <= k < t.2.len() implies exists|m: int|
            0 <= m < pushed.len() && #[trigger] pushed[m] == #[trigger] t.2[k] by {
            assert(t.2.contains(t.2[k]));
            assert(t.2.to_multiset().count(t.2[k]) > 0);
            assert(pushed.contains(t.2[k]));
        }
        // Fragments of `t` are apart from each other.
        assert forall|i: int, j: int| 0 <= i < t.2.len() && 0 <= j < t.2.len() && i != j implies apart(
            #[trigger] t.2[i],
            #[trigger] t.2[j],
        ) by {
            let mi = choose|m: int| 0 <= m < pushed.len() && #[trigger] pushed[m] == t.2[i];
            let mj = choose|m: int| 0 <= m < pushed.len() && #[trigger] pushed[m] == t.2[j];
            assert(t.2[i] != t.2[j]);
            assert(apart(pushed[mi], pushed[mj]));
        }
        // Fragments of `t` are apart from every usable entry after `s.0`.
        assert forall|i: int, j: int| 0 <= i < t.2.len() && s.0 < j < es.len() && is_usable(*es[j]) implies apart(
            #[trigger] t.2[i],
            entry_piece(*#[trigger] es[j]),
        ) by {
            let mi = choose|m: int| 0 <= m < pushed.len() && #[trigger] pushed[m] == t.2[i];
            if mi < s.2.len() {
                assert(pushed[mi] == s.2[mi]);
                assert(apart(s.2[mi], entry_piece(*es[j])));
            } else {
                assert(apart(ent, entry_piece(*es[j])));
                lemma_apart_facts(cur, ent, entry_piece(*es[j]));
            }
        }
    } else {
        assert forall|i: int, j: int| 0 <= i < t.2.len() && s.0 < j < es.len() && is_usable(*es[j]) implies apart(
            #[trigger] t.2[i],
            entry_piece(*#[trigger] es[j]),
        ) by {
            assert(apart(s.2[i], entry_piece(*es[j])));
        }
    }
    // The fragments of `t` are apart from its current region: the entry at `t.0`.
    assert forall|i: int| 0 <= i < t.2.len() && t.0 < es.len() implies apart(#[trigger] t.2[i], (t.1.base, t.1.length)) by {
        assert(is_usable(*es[t.0]));
        assert(apart(t.2[i], entry_piece(*es[t.0])));
    }
    // And from every usable entry after it.
    assert forall|i: int, j: int| 0 <= i < t.2.len() && t.0 < j < es.len() && is_usable(*es[j]) implies apart(
        #[trigger] t.2[i],
        entry_piece(*#[trigger] es[j]),
    ) by {
        assert(s.0 < j);
    }
}

/// When the free pieces do not overlap, a request leaves them apart, and no address of the
/// fragment it hands out is free afterwards: a frame is never handed out twice.
pub proof fn lemma_allocation_hands_out_once(
    es: Seq<&LimineEntry>,
    s: WalkState,
    t: WalkState,
    r: Option<u64>,
    size: u64,
)
    requires
        walk_ok(es, s),
        pieces_apart(es, s),
        is_page_size(size),
        allocation(es, s, t, r, size),
    ensures
        pieces_apart(es, t),
        r matches Some(f) ==> forall|a: int| f <= a < f + size ==> !free_in(es, t, a),
    decreases es.len() - s.0,
{
    lemma_allocation_takes_free_memory(es, s, t, r, size);
    let cur = (s.1.base, s.1.length);
    match pick_fragment(s.2, size) {
        Some(i) => {
            assert(first_fit(s.2, size, 0) == Some(i));
            lemma_first_fit(s.2, size, 0);
            let p = s.2[i];
            assert(frags_fit(s.2));
            lemma_carve_inside(p, size);
            crate::align::lemma_align_up_arith(p.0 as int, size as int);
            let c = carve(p.0, p.1, size);
            assert(inside(c, p));
            // Each fragment of `t` is a fragment of `s` other than `p`, or what is left of `p`.
            assert forall|k: int| 0 <= k < t.2.len() implies (#[trigger] t.2[k] == c && c.1 != 0 && k == i) || (
            exists|m: int| 0 <= m < s.2.len() && m != i && #[trigger] s.2[m] == t.2[k]) by {
                if c.1 == 0 {
                    if k < i {
                        assert(s.2[k] == t.2[k]);
                    } else {
                        assert(s.2[k + 1] == t.2[k]);
                    }
                } else if k != i {
                    assert(s.2[k] == t.2[k]);
                }
            }
            assert forall|i1: int, j1: int| 0 <= i1 < t.2.len() && 0 <= j1 < t.2.len() && i1 != j1 implies apart(
                #[trigger] t.2[i1],
                #[trigger] t.2[j1],
            ) by {
                if c.1 == 0 {
                    let a1 = if i1 < i { i1 } else { i1 + 1 };
                    let b1 = if j1 < i { j1 } else { j1 + 1 };
                    assert(t.2[i1] == s.2[a1]);
                    assert(t.2[j1] == s.2[b1]);
                    assert(apart(s.2[a1], s.2[b1]));
                } else if i1 == i {
                    assert(apart(p, s.2[j1]));
                    lemma_apart_facts(c, p, s.2[j1]);
                } else if j1 == i {
                    assert(apart(p, s.2[i1]));
                    lemma_apart_facts(c, p, s.2[i1]);
                } else {
                    assert(apart(s.2[i1], s.2[j1]));
                }
            }
            assert forall|k: int| 0 <= k < t.2.len() && t.0 < es.len() implies apart(#[trigger] t.2[k], (t.1.base, t.1.length)) by {
                if t.2[k] == c && c.1 != 0 && k == i {
                    assert(apart(p, cur));
                    lemma_apart_facts(c, p, cur);
                } else {
                    let m = choose|m: int| 0 <= m < s.2.len() && m != i && #[trigger] s.2[m] == t.2[k];
                    assert(apart(s.2[m], cur));
                }
            }
            assert forall|k: int, j: int| 0 <= k < t.2.len() && t.0 < j < es.len() && is_usable(*es[j]) implies apart(
                #[trigger] t.2[k],
                entry_piece(*#[trigger] es[j]),
            ) by {
                if t.2[k] == c && c.1 != 0 && k == i {
                    assert(apart(p, entry_piece(*es[j])));
                    lemma_apart_facts(c, p, entry_piece(*es[j]));
                } else {
                    let m = choose|m: int| 0 <= m < s.2.len() && m != i && #[trigger] s.2[m] == t.2[k];
                    assert(apart(s.2[m], entry_piece(*es[j])));
                }
            }
            if let Some(f) = r {
                assert forall|a: int| f <= a < f + size implies !free_in(es, t, a) by {
                    assert(in_piece(p, a));
                    if exists|k: int| 0 <= k < t.2.len() && #[trigger] in_piece(t.2[k], a) {
                        let k = choose|k: int| 0 <= k < t.2.len() && #[trigger] in_piece(t.2[k], a);
                        if t.2[k] == c && c.1 != 0 && k == i {
                        } else {
                            let m = choose|m: int| 0 <= m < s.2.len() && m != i && #[trigger] s.2[m] == t.2[k];
                            assert(apart(s.2[m], p));
                            lemma_apart_facts(p, s.2[m], p);
                        }
                    }
                    if 0 <= t.0 < es.len() && in_piece((t.1.base, t.1.length), a) {
                        assert(apart(p, cur));
                        lemma_apart_facts(p, p, cur);
                    }
                    if exists|j: int|
                        t.0 < j < es.len() && is_usable(*es[j]) && #[trigger] in_piece((es[j].base, es[j].length), a) {
                        let j = choose|j: int|
                            t.0 < j < es.len() && is_usable(*es[j]) && #[trigger] in_piece((es[j].base, es[j].length), a);
                        assert(apart(p, entry_piece(*es[j])));
                        lemma_apart_facts(p, p, entry_piece(*es[j]));
                    }
                }
            }
        },
        None => {
            if s.0 < 0 || s.0 >= es.len() {
            } else if region_fits(s.1.base, s.1.length, size) {
                lemma_carve_inside(cur, size);
                crate::align::lemma_align_up_arith(s.1.base as int, size as int);
                let c = carve(s.1.base, s.1.length, size);
                let ent = entry_piece(*es[s.0]);
                assert(inside(cur, ent));
                let f = aligned_base(s.1.base, size);
                // No free piece other than the current region holds an address of the fragment.
                assert forall|a: int| f <= a < f + size implies !#[trigger] in_fragments(s.2, a) && !#[trigger] in_later_entry(es, s.0, a) by {
                    assert(in_piece(cur, a));
                    if exists|k: int| 0 <= k < s.2.len() && #[trigger] in_piece(s.2[k], a) {
                        let k = choose|k: int| 0 <= k < s.2.len() && #[trigger] in_piece(s.2[k], a);
                        assert(apart(s.2[k], cur));
                        lemma_apart_facts(cur, s.2[k], cur);
                    }
                    if exists|j: int|
                        s.0 < j < es.len() && is_usable(*es[j]) && #[trigger] in_piece((es[j].base, es[j].length), a) {
                        let j = choose|j: int|
                            s.0 < j < es.len() && is_usable(*es[j]) && #[trigger] in_piece((es[j].base, es[j].length), a);
                        assert(apart(entry_piece(*es[s.0]), entry_piece(*es[j])));
                        lemma_apart_facts(cur, ent, entry_piece(*es[j]));
                    }
                }
                if c.1 == 0 {
                    let z: WalkState = (s.0, MemoryRegion { base: s.1.base, length: 0 }, s.2);
                    lemma_advanced(es, z, t);
                    lemma_advanced_apart(es, z, t);
                } else {
                    assert forall|k: int| 0 <= k < t.2.len() && t.0 < es.len() implies apart(#[trigger] t.2[k], (t.1.base, t.1.length)) by {
                        assert(apart(s.2[k], cur));
                        lemma_apart_facts(c, cur, s.2[k]);
                    }
                }
            } else {
                let m = choose|m: WalkState| #[trigger] advanced(es, s, m) && if m.0 < es.len() {
                    m.0 > s.0 && allocation(es, m, t, r, size)
                } else {
                    r is None && t == m
                };
                lemma_advanced(es, s, m);
                lemma_advanced_apart(es, s, m);
                if m.0 < es.len() {
                    lemma_allocation_hands_out_once(es, m, t, r, size);
                }
            }
        },
    }
}

/// The address a request returned, or `None` when it failed.
pub open spec fn frame_addr<S: FragmentSize>(r: Result<Frame<S>, MemError>) -> Option<u64> {
    match r {
        Ok(f) => Some(f@),
        Err(_) => None,
    }
}

/// The regions already in use: the part of the current entry before what is left of it, then
/// the usable entries before the current one.
pub open spec fn used_list(es: Seq<&LimineEntry>, s: WalkState) -> Seq<MemoryRegion> {
    (if s.0 < es.len() {
        seq![MemoryRegion { base: es[s.0].base, length: (s.1.base - es[s.0].base) as u64 }]
    } else {
        Seq::empty()
    }) + usable_regions(es, s.0)
}

/// Hands out the first frames from the bootloader's memory map: walks its usable entries in
/// order, carving aligned fragments from the start of the current one, and keeps what it skips
/// over as leftover fragments, served first.
pub struct EntryWalker<'a> {
    /// The memory-map entries.
    pub entries: &'a [&'a LimineEntry],
    current: MemoryRegion,
    current_idx: usize,
    fragments: ArrayVec<(u64, u64), 64>,
}

impl<'a> EntryWalker<'a> {
    /// The memory-map entries being walked.
    pub closed spec fn entry_seq(&self) -> Seq<&'a LimineEntry> {
        self.entries@
    }

    /// The index of the current entry.
    pub closed spec fn index(&self) -> int {
        self.current_idx as int
    }

    /// What is left of the current region.
    pub closed spec fn region(&self) -> MemoryRegion {
        self.current
    }

    /// The leftover fragments, in their order.
    pub closed spec fn leftovers(&self) -> Seq<(u64, u64)> {
        fragment_list(self.fragments)
    }

    /// The state of the walk.
    pub open spec fn state(&self) -> WalkState {
        (self.index(), self.region(), self.leftovers())
    }

    /// The walk is consistent with its entries.
    pub open spec fn wf(&self) -> bool {
        walk_ok(self.entry_seq(), self.state())
    }

    /// Every usable entry from the current one on could still join the leftover fragments
    /// without going past their capacity.
    pub open spec fn has_room(&self) -> bool {
        self.leftovers().len() + usable_count(self.entry_seq(), self.index()) <= MAX_FRAGMENTS
    }

    /// Starts a walk at the first usable entry, or fails with `OutOfMemory` when there is none.
    /// Every usable entry must end within the physical address width.
    pub fn from_limine_entries(entries: &'a [&'a LimineEntry]) -> (r: Result<Self, MemError>)
        requires
            entries_fit(entries@),
        ensures
            r is Ok <==> next_usable(entries@, 0) < entries@.len(),
            r matches Err(e) ==> e == MemError::OutOfMemory,
            r matches Ok(w) ==> {
                &&& w.wf()
                &&& w.entry_seq() == entries@
                &&& w.index() == next_usable(entries@, 0)
                &&& w.region() == region_of(*entries@[w.index()])
                &&& w.leftovers() == Seq::<(u64, u64)>::empty()
                &&& (w.has_room() <==> usable_count(entries@, 0) <= MAX_FRAGMENTS)
                &&& (usable_apart(entries@) ==> pieces_apart(entries@, w.state()))
            },
    {
        proof {
            lemma_next_usable(entries@, 0);
        }
        let mut i: usize = 0;
        while i < entries.len()
            invariant
                i <= entries@.len(),
                forall|k: int| 0 <= k < i ==> !is_usable(*#[trigger] entries@[k]),
                entries_fit(entries@),
                usable_count(entries@, 0) == usable_count(entries@, next_usable(entries@, 0)),
            decreases entries.len() - i,
        {
            let e = entries[i];
            if e.entry_type == EntryType::USABLE {
                proof {
                    lemma_next_usable_skip(entries@, 0, i as int);
                }
                let w = EntryWalker {
                    entries,
                    current: MemoryRegion::from(*e),
                    current_idx: i,
                    fragments: fragments_new(),
                };
                return Ok(w);
            }
            i += 1;
        }
        proof {
            lemma_next_usable_skip(entries@, 0, i as int);
        }
        Err(MemError::OutOfMemory)
    }

    /// The total length of the entries that are usable, reclaimable by the bootloader, or
    /// reclaimable ACPI memory; the total must fit a `u64`.
    pub fn usable_memory(&self) -> (r: u64)
        requires
            usable_total(self.entry_seq(), self.entry_seq().len() as int) <= u64::MAX,
        ensures
            r == usable_total(self.entry_seq(), self.entry_seq().len() as int),
    {
        let mut total: u64 = 0;
        let mut i: usize = 0;
        while i < self.entries.len()
            invariant
                i <= self.entry_seq().len(),
                total == usable_total(self.entry_seq(), i as int),
                usable_total(self.entry_seq(), self.entry_seq().len() as int) <= u64::MAX,
            decreases self.entries.len() - i,
        {
            proof {
                lemma_usable_total_mono(self.entry_seq(), i as int + 1, self.entry_seq().len() as int);
            }
            let entry = self.entries[i];
            if entry.entry_type == EntryType::USABLE || entry.entry_type
                == EntryType::BOOTLOADER_RECLAIMABLE || entry.entry_type
                == EntryType::ACPI_RECLAIMABLE {
                total += entry.length;
            }
            i += 1;
        }
        total
    }

    /// Moves on to the next usable entry (see `advanced`), returning its region, or
    /// `OutOfMemory` when there is none.
    fn advance_region(&mut self) -> (r: Result<MemoryRegion, MemError>)
        requires
            old(self).wf(),
            old(self).has_room(),
            old(self).index() < old(self).entry_seq().len(),
        ensures
            final(self).entry_seq() == old(self).entry_seq(),
            final(self).entries == old(self).entries,
            advanced(old(self).entry_seq(), old(self).state(), final(self).state()),
            final(self).wf(),
            final(self).has_room(),
            r is Ok <==> final(self).index() < final(self).entry_seq().len(),
            r matches Ok(m) ==> m == final(self).region(),
            r matches Err(e) ==> e == MemError::OutOfMemory,
    {
        let ghost es = self.entry_seq();
        let ghost s0 = self.state();
        proof {
            lemma_next_usable(es, s0.0 + 1);
            assert(usable_count(es, s0.0) == usable_count(es, s0.0 + 1) + 1);
        }
        if self.current.length != 0 {
            let ghost pushed = s0.2.push((s0.1.base, s0.1.length));
            fragments_push(&mut self.fragments, (self.current.base, self.current.length));
            fragments_sort_by_length(&mut self.fragments);
            proof {
                assert forall|k: int| 0 <= k < pushed.len() implies 0 < (#[trigger] pushed[k]).1
                    && pushed[k].0 + pushed[k].1 <= PHYSICAL_ADDRESS_MAX by {
                    if k < s0.2.len() {
                        assert(pushed[k] == s0.2[k]);
                    }
                }
                lemma_permutation_bounded(fragment_list(self.fragments), pushed);
                assert(fragment_list(self.fragments).len() == s0.2.len() + 1);
            }
        }
        let ghost frags1 = fragment_list(self.fragments);
        proof {
            assert(frags_fit(frags1));
            assert(frags1.len() + usable_count(es, s0.0 + 1) <= MAX_FRAGMENTS);
        }
        let len = self.entries.len();
        self.current_idx += 1;
        while self.current_idx < len
            invariant
                self.entry_seq() == es,
                es == old(self).entry_seq(),
                s0 == old(self).state(),
                len == es.len(),
                self.entries == old(self).entries,
                walk_ok(es, s0),
                s0.0 + 1 <= self.current_idx <= es.len(),
                forall|k: int| s0.0 + 1 <= k < self.current_idx ==> !is_usable(*#[trigger] es[k]),
                self.current == s0.1,
                fragment_list(self.fragments) == frags1,
                frags_fit(frags1),
                frags1.len() + usable_count(es, s0.0 + 1) <= MAX_FRAGMENTS,
                usable_count(es, s0.0 + 1) == usable_count(es, next_usable(es, s0.0 + 1)),
                s0.0 + 1 <= next_usable(es, s0.0 + 1) <= es.len(),
                next_usable(es, s0.0 + 1) < es.len() ==> is_usable(*es[next_usable(es, s0.0 + 1)]),
                if s0.1.length != 0 {
                    sorted_permutation(frags1, s0.2.push((s0.1.base, s0.1.length)))
                } else {
                    frags1 == s0.2
                },
            decreases len - self.current_idx,
        {
            let entry = self.entries[self.current_idx];
            if entry.entry_type == EntryType::USABLE {
                proof {
                    lemma_next_usable_skip(es, s0.0 + 1, self.current_idx as int);
                    assert(next_usable(es, self.current_idx as int) == self.current_idx);
                    assert(*entry == *es[self.current_idx as int]);
                }
                self.current = MemoryRegion::from(*entry);
                return Ok(self.current);
            }
            self.current_idx += 1;
        }
        proof {
            lemma_next_usable_skip(es, s0.0 + 1, self.current_idx as int);
        }
        Err(MemError::OutOfMemory)
    }

    /// Serves a request for a fragment of size `S` from the leftover fragments: from the one
    /// `pick_fragment` chooses, leaving what `take_fragment` says; `None`, with nothing
    /// changed, when it chooses none.
    fn fragment_for<S: FragmentSize>(&mut self) -> (r: Option<Frame<S>>)
        requires
            old(self).wf(),
        ensures
            final(self).entry_seq() == old(self).entry_seq(),
            final(self).entries == old(self).entries,
            final(self).index() == old(self).index(),
            final(self).region() == old(self).region(),
            final(self).leftovers().len() <= old(self).leftovers().len(),
            final(self).wf(),
            match pick_fragment(old(self).leftovers(), S::spec_size()) {
                Some(i) => r matches Some(f) && f@ == aligned_base(old(self).leftovers()[i].0, S::spec_size())
                    && final(self).leftovers() == take_fragment(old(self).leftovers(), i, S::spec_size()),
                None => r is None && final(self).leftovers() == old(self).leftovers(),
            },
    {
        let ghost fs = self.leftovers();
        let ghost size = S::spec_size();
        proof {
            S::lemma_size();
        }
        let n = fragments_len(&self.fragments);
        if n == 0 {
            return None;
        }
        let last = fragments_get(&self.fragments, n - 1);
        if last.1 < S::size() {
            return None;
        }
        let mut i: usize = 0;
        while i < n
            invariant
                i <= n,
                n == fs.len(),
                fragment_list(self.fragments) == fs,
                fs == old(self).leftovers(),
                self.wf(),
                *self == *old(self),
                is_page_size(size),
                size == S::spec_size(),
                first_fit(fs, size, 0) == first_fit(fs, size, i as int),
                n > 0,
                last == fs[n - 1],
                last.1 >= size,
            decreases n - i,
        {
            let fragment = fragments_get(&self.fragments, i);
            let region = MemoryRegion { base: fragment.0, length: fragment.1 };
            assert(frags_fit(fs));
            assert(fs[i as int].0 + fs[i as int].1 <= PHYSICAL_ADDRESS_MAX);
            match region.align_for_with_offset::<S>() {
                Some((aligned, offset)) => {
                    proof {
                        crate::align::lemma_align_up_arith(fragment.0 as int, size as int);
                        assert(first_fit(fs, size, i as int) == Some(i as int));
                        assert(fs.last() == last);
                        assert(pick_fragment(fs, size) == Some(i as int));
                        assert(carve(fs[i as int].0, fs[i as int].1, size) == (
                            (aligned@ + size) as u64,
                            (fragment.1 - size - offset) as u64,
                        ));
                    }
                    let new_base = aligned.as_u64() + S::size();
                    let new_length = fragment.1 - S::size() - offset;
                    if new_length == 0 {
                        fragments_remove(&mut self.fragments, i);
                    } else {
                        fragments_set(&mut self.fragments, i, (new_base, new_length));
                    }
                    proof {
                        let after = fragment_list(self.fragments);
                        assert(frags_fit(fs));
                        assert forall|k: int| 0 <= k < after.len() implies 0 < (#[trigger] after[k]).1
                            && after[k].0 + after[k].1 <= PHYSICAL_ADDRESS_MAX by {
                            if new_length == 0 {
                                if k < i {
                                    assert(after[k] == fs[k]);
                                } else {
                                    assert(after[k] == fs[k + 1]);
                                }
                            } else if k != i {
                                assert(after[k] == fs[k]);
                            }
                        }
                    }
                    return Some(Frame::new(aligned));
                },
                None => {},
            }
            i += 1;
        }
        None
    }

    /// Hands out a frame of size `S`, aligned to its size, as `allocation` describes: from a
    /// leftover fragment, else from the current region, moving on through the usable entries
    /// until one fits; `OutOfMemory` when none does.
    pub fn allocate_fragment<S: FragmentSize>(&mut self) -> (r: Result<Frame<S>, MemError>)
        requires
            old(self).wf(),
            old(self).has_room(),
        ensures
            final(self).entry_seq() == old(self).entry_seq(),
            final(self).wf(),
            final(self).has_room(),
            allocation(old(self).entry_seq(), old(self).state(), final(self).state(), frame_addr(r), S::spec_size()),
            r matches Err(e) ==> e == MemError::OutOfMemory,
        decreases old(self).entry_seq().len() - old(self).index(),
    {
        let ghost es = self.entry_seq();
        let ghost s0 = self.state();
        let ghost size = S::spec_size();
        proof {
            S::lemma_size();
        }
        if let Some(frame) = self.fragment_for::<S>() {
            return Ok(frame);
        }
        let region = match self.current_region() {
            Ok(region) => region,
            Err(e) => return Err(e),
        };
        let (aligned, offset) = match region.align_for_with_offset::<S>() {
            Some(found) => found,
            None => {
                match self.advance_region() {
                    Ok(_) => {},
                    Err(e) => {
                        proof {
                            assert(advanced(es, s0, self.state()));
                        }
                        return Err(e);
                    },
                }
                let ghost mid = self.state();
                proof {
                    lemma_next_usable(es, s0.0 + 1);
                }
                let res = self.allocate_fragment::<S>();
                proof {
                    assert(advanced(es, s0, mid));
                }
                return res;
            },
        };
        proof {
            crate::align::lemma_align_up_arith(region.base as int, size as int);
        }
        let new_base = aligned.as_u64() + S::size();
        let new_length = region.length - S::size() - offset;
        if new_length == 0 {
            self.current.length = 0;
            let _ = self.advance_region();
        } else {
            self.current = MemoryRegion { base: new_base, length: new_length };
        }
        Ok(Frame::new(aligned))
    }

    /// Hands out a frame of size `S` (see `allocate_fragment`).
    pub fn allocate_for<S: FragmentSize>(&mut self) -> (r: Result<Frame<S>, MemError>)
        requires
            old(self).wf(),
            old(self).has_room(),
        ensures
            final(self).entry_seq() == old(self).entry_seq(),
            final(self).wf(),
            final(self).has_room(),
            allocation(old(self).entry_seq(), old(self).state(), final(self).state(), frame_addr(r), S::spec_size()),
            r matches Err(e) ==> e == MemError::OutOfMemory,
            r matches Ok(f) ==> forall|a: int|
                f@ <= a < f@ + S::spec_size() ==> free_in(old(self).entry_seq(), old(self).state(), a),
            forall|a: int|
                free_in(final(self).entry_seq(), final(self).state(), a) ==> free_in(
                    old(self).entry_seq(),
                    old(self).state(),
                    a,
                ),
            pieces_apart(old(self).entry_seq(), old(self).state()) ==> pieces_apart(
                final(self).entry_seq(),
                final(self).state(),
            ),
            pieces_apart(old(self).entry_seq(), old(self).state()) ==> (r matches Ok(f)
                ==> forall|a: int|
                f@ <= a < f@ + S::spec_size() ==> !free_in(final(self).entry_seq(), final(self).state(), a)),
    {
        let ghost es = self.entry_seq();
        let ghost s0 = self.state();
        let r = self.allocate_fragment::<S>();
        proof {
            S::lemma_size();
            lemma_allocation_takes_free_memory(es, s0, self.state(), frame_addr(r), S::spec_size());
            if pieces_apart(es, s0) {
                lemma_allocation_hands_out_once(es, s0, self.state(), frame_addr(r), S::spec_size());
            }
        }
        r
    }

    /// Takes a frame back, which the walker does not do: it only serves the first frames, and
    /// nothing changes.
    pub fn deallocate_fragment<S: FragmentSize>(&mut self, frame: Frame<S>)
        ensures
            *final(self) == *old(self),
    {
    }

    /// The regions already in use (see `used_list`).
    pub fn used_regions(&self) -> (r: Vec<MemoryRegion>)
        requires
            self.wf(),
        ensures
            r@ == used_list(self.entry_seq(), self.state()),
    {
        let ghost es = self.entry_seq();
        let mut out: Vec<MemoryRegion> = Vec::new();
        match self.current_region() {
            Ok(region) => {
                let full = self.entries[self.current_idx];
                out.push(MemoryRegion { base: full.base, length: region.base - full.base });
            },
            Err(_) => {},
        }
        let ghost partial = out@;
        let mut index: usize = 0;
        while index < self.current_idx
            invariant
                es == self.entry_seq(),
                self.wf(),
                index <= self.index(),
                out@ == partial + usable_regions(es, index as int),
                partial == used_list(es, self.state()).subrange(0, partial.len() as int),
                used_list(es, self.state()) == partial + usable_regions(es, self.index()),
            decreases self.current_idx - index,
        {
            let entry = self.entries[index];
            if entry.entry_type == EntryType::USABLE {
                out.push(MemoryRegion::from(*entry));
            }
            index += 1;
            proof {
                assert(out@ == partial + usable_regions(es, index as int));
            }
        }
        out
    }

    /// What is left of the current region, or `OutOfMemory` when the walk is past the last
    /// entry.
    fn current_region(&self) -> (r: Result<MemoryRegion, MemError>)
        ensures
            r is Ok <==> self.index() < self.entry_seq().len(),
            r matches Ok(m) ==> m == self.region(),
            r matches Err(e) ==> e == MemError::OutOfMemory,
    {
        if self.current_idx >= self.entries.len() {
            return Err(MemError::OutOfMemory);
        }
        Ok(self.current)
    }
}

impl<'a, S: FragmentSize> FragmentManager<Frame<S>, S> for EntryWalker<'a> {
    open spec fn manager_ok(&self) -> bool {
        self.wf() && self.has_room()
    }

    open spec fn may_take_back(&self, frame: Frame<S>) -> bool {
        true
    }

    open spec fn hands_out(&self, after: &Self, r: Result<Frame<S>, MemError>) -> bool {
        &&& after.entry_seq() == self.entry_seq()
        &&& allocation(self.entry_seq(), self.state(), after.state(), frame_addr(r), S::spec_size())
        &&& r matches Err(e) ==> e == MemError::OutOfMemory
    }

    open spec fn takes_back(&self, after: &Self, frame: Frame<S>) -> bool {
        *after == *self
    }

    fn allocate_fragment(&mut self) -> (r: Result<Frame<S>, MemError>) {
        EntryWalker::allocate_fragment::<S>(self)
    }

    fn deallocate_fragment(&mut self, frame: Frame<S>) {
        EntryWalker::deallocate_fragment::<S>(self, frame)
    }
}

impl<'a> FullManager for EntryWalker<'a> {
}

} // verus!
