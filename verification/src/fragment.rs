//! Splitting a range of addresses into the largest aligned fragments, and pairing the
//! fragments of a virtual range with those of a physical range of the same length.
use vstd::prelude::*;
use crate::addr::{Address, PhysAddr, VirtAddr};
use crate::primitives::{
    AnyFragment, Fragment, FrameClass, Large, Medium, PageClass, PrimitiveClass, Small,
    LARGE_SIZE, MEDIUM_SIZE, SMALL_SIZE,
};

verus! {

/// Every address from `lo` to `hi` (both included) is valid for the address type `A`.
#[verifier::opaque]
pub open spec fn valid_span<A: Address>(lo: int, hi: int) -> bool {
    forall|v: u64| lo <= v <= hi ==> #[trigger] A::spec_valid(v)
}

/// `n` rounded up to a multiple of a small page.
pub open spec fn round_up_small(n: int) -> int {
    if n % (SMALL_SIZE as int) == 0 {
        n
    } else {
        n - n % (SMALL_SIZE as int) + SMALL_SIZE
    }
}

/// The start address and size of the fragment that a range starting at `base` with `len`
/// bytes left begins with: the largest page size that divides the start (rounded down to a
/// small page) and fits in the bytes left, or a small page.
pub open spec fn first_fragment(base: u64, len: u64) -> (u64, u64) {
    let aligned = (base - base % SMALL_SIZE) as u64;
    if aligned % LARGE_SIZE == 0 && len >= LARGE_SIZE {
        (aligned, LARGE_SIZE)
    } else if aligned % MEDIUM_SIZE == 0 && len >= MEDIUM_SIZE {
        (aligned, MEDIUM_SIZE)
    } else {
        (aligned, SMALL_SIZE)
    }
}

/// The law of the greedy choice: a range's first fragment starts at the range's start rounded
/// down to a small page, has one of the three page sizes, and is aligned to it; it is the
/// largest of the page sizes that divides that start and is no larger than the bytes left, and
/// a small page when none of the larger ones does.
pub proof fn lemma_first_fragment_largest(base: u64, len: u64)
    ensures
        ({
            let (s, z) = first_fragment(base, len);
            &&& s == base - base % SMALL_SIZE
            &&& z == SMALL_SIZE || z == MEDIUM_SIZE || z == LARGE_SIZE
            &&& s % z == 0
            &&& z == SMALL_SIZE || z <= len
            &&& (s % MEDIUM_SIZE == 0 && len >= MEDIUM_SIZE) ==> z >= MEDIUM_SIZE
            &&& (s % LARGE_SIZE == 0 && len >= LARGE_SIZE) ==> z == LARGE_SIZE
        }),
{
    let s = (base - base % SMALL_SIZE) as u64;
    vstd::arithmetic::div_mod::lemma_fundamental_div_mod(base as int, SMALL_SIZE as int);
    vstd::arithmetic::div_mod::lemma_mod_multiples_basic(base as int / SMALL_SIZE as int, SMALL_SIZE as int);
    assert(s % SMALL_SIZE == 0);
}

/// `a - s` saturating at zero.
pub open spec fn sat_sub(a: u64, s: u64) -> u64 {
    if a >= s {
        (a - s) as u64
    } else {
        0
    }
}

/// The fragments, as `(start, size)`, that splitting `remain` bytes from `start` gives, in
/// order: the first one `first_fragment` calls for, then those of the bytes after it.
pub open spec fn fragment_walk(start: u64, remain: u64) -> Seq<(u64, u64)>
    decreases remain,
{
    if remain == 0 {
        Seq::empty()
    } else {
        let f = first_fragment(start, remain);
        if f.0 + f.1 > u64::MAX {
            seq![f]
        } else {
            seq![f] + fragment_walk((f.0 + f.1) as u64, sat_sub(remain, f.1))
        }
    }
}

/// The total size of the fragments `fs`.
pub open spec fn sizes_sum(fs: Seq<(u64, u64)>) -> int
    decreases fs.len(),
{
    if fs.len() == 0 {
        0
    } else {
        fs[0].1 + sizes_sum(fs.drop_first())
    }
}

/// Splitting a range ends, and the fragments cover it exactly: splitting `remain` bytes from
/// a start at a small-page boundary gives finitely many fragments, the first at `start`, each
/// starting where the one before it ends and aligned to its own size, with sizes that add up to
/// `remain` rounded up to a small page.
pub proof fn lemma_fragment_walk(start: u64, remain: u64)
    requires
        start % SMALL_SIZE == 0,
        start + round_up_small(remain as int) <= u64::MAX,
    ensures
        remain > 0 ==> fragment_walk(start, remain).len() > 0 && fragment_walk(start, remain)[0].0 == start,
        forall|i: int|
            0 <= i < fragment_walk(start, remain).len() - 1 ==> #[trigger] fragment_walk(start, remain)[i
                + 1].0 == fragment_walk(start, remain)[i].0 + fragment_walk(start, remain)[i].1,
        forall|i: int|
            0 <= i < fragment_walk(start, remain).len() ==> #[trigger] fragment_walk(start, remain)[i].0
                % fragment_walk(start, remain)[i].1 == 0,
        sizes_sum(fragment_walk(start, remain)) == round_up_small(remain as int),
    decreases remain,
{
    if remain > 0 {
        let f = first_fragment(start, remain);
        let z = f.1;
        assert(f.0 == start);
        let r2 = sat_sub(remain, z);
        if remain >= z {
            let rr = remain as int;
            let zz = z as int;
            let q = zz / 4096;
            assert(zz == 4096 * q);
            vstd::arithmetic::div_mod::lemma_mod_multiples_vanish(-q, rr, 4096);
            assert(4096 * (-q) + rr == rr - zz) by (nonlinear_arith)
                requires
                    zz == 4096 * q,
            ;
            assert((rr - zz) % 4096 == rr % 4096);
            assert(round_up_small(r2 as int) == round_up_small(remain as int) - z);
        } else {
            assert(z == SMALL_SIZE);
            assert(r2 == 0);
        }
        assert(start + z <= u64::MAX);
        let n = (start + z) as u64;
        assert(n % SMALL_SIZE == 0) by {
            vstd::arithmetic::div_mod::lemma_mod_adds(start as int, z as int, SMALL_SIZE as int);
        }
        lemma_fragment_walk(n, r2);
        let rest = fragment_walk(n, r2);
        let w = fragment_walk(start, remain);
        assert(w == seq![f] + rest);
        assert(w.drop_first() =~= rest);
        assert forall|i: int| 0 <= i < w.len() - 1 implies #[trigger] w[i + 1].0 == w[i].0 + w[i].1 by {
            if i > 0 {
                assert(w[i] == rest[i - 1]);
                assert(w[i + 1] == rest[i]);
            }
        }
        assert forall|i: int| 0 <= i < w.len() implies #[trigger] w[i].0 % w[i].1 == 0 by {
            if i > 0 {
                assert(w[i] == rest[i - 1]);
            }
        }
    }
}

/// The walk law for a splitter: the fragments that the calls of `next_fragment` still hand
/// out, one per call until `None` (each call takes the first fragment of `fragment_walk` and
/// leaves the rest, and the bytes left drop with every call), start at its next fragment, are
/// contiguous and aligned to their size, and add up to the bytes left rounded up to a small
/// page.
pub proof fn lemma_mapper_walk<C: PrimitiveClass>(m: GreedyFragmentMapper<C>)
    requires
        m.wf(),
    ensures
        ({
            let w = fragment_walk(m.spec_next().spec_start(), m.spec_remain());
            &&& m.spec_remain() > 0 ==> w.len() > 0 && w[0] == (m.spec_next().spec_start(), m.spec_next().spec_size())
            &&& forall|i: int| 0 <= i < w.len() - 1 ==> #[trigger] w[i + 1].0 == w[i].0 + w[i].1
            &&& forall|i: int| 0 <= i < w.len() ==> #[trigger] w[i].0 % w[i].1 == 0
            &&& sizes_sum(w) == round_up_small(m.spec_remain() as int)
        }),
{
    lemma_fragment_walk(m.spec_next().spec_start(), m.spec_remain());
}

/// Splits a range of addresses of the family `C` into aligned fragments, each as large as
/// its start's alignment and the bytes left allow.
#[derive(Clone, Copy, PartialEq, Eq, Debug)]
pub struct GreedyFragmentMapper<C: PrimitiveClass> {
    base_prim: AnyFragment<C>,
    len: u64,
    remain: u64,
}

impl<C: PrimitiveClass> GreedyFragmentMapper<C> {
    /// The next fragment.
    pub closed spec fn spec_next(&self) -> AnyFragment<C> {
        self.base_prim
    }

    /// The length of the range.
    pub closed spec fn spec_len(&self) -> u64 {
        self.len
    }

    /// The bytes left.
    pub closed spec fn spec_remain(&self) -> u64 {
        self.remain
    }

    /// The next fragment is the one its start and the bytes left call for, and, while bytes
    /// are left, every address up to its start plus the bytes left rounded up to a small page
    /// is valid.
    pub open spec fn wf(&self) -> bool {
        let s = self.spec_next().spec_start();
        &&& (s, self.spec_next().spec_size()) == first_fragment(s, self.spec_remain())
        &&& s % SMALL_SIZE == 0
        &&& self.spec_remain() > 0 ==> s + round_up_small(self.spec_remain() as int) <= u64::MAX
            && valid_span::<C::Addr>(s as int, s + round_up_small(self.spec_remain() as int))
    }

    /// Splits the range of `len` bytes from `base`, rounded down to a small page; every
    /// address up to there plus `len` rounded up to a small page must be valid.
    pub fn new(base: C::Addr, len: u64) -> (r: Self)
        requires
            ({
                let s = base.spec_u64() - base.spec_u64() % SMALL_SIZE;
                &&& s + round_up_small(len as int) <= u64::MAX
                &&& valid_span::<C::Addr>(s, s + round_up_small(len as int))
            }),
        ensures
            r.wf(),
            (r.spec_next().spec_start(), r.spec_next().spec_size()) == first_fragment(base.spec_u64(), len),
            r.spec_len() == len,
            r.spec_remain() == len,
    {
        GreedyFragmentMapper { base_prim: Self::next_prim(base, len), len, remain: len }
    }

    /// The fragment that a range starting at `base` with `len` bytes left begins with.
    fn next_prim(base: C::Addr, len: u64) -> (r: AnyFragment<C>)
        ensures
            (r.spec_start(), r.spec_size()) == first_fragment(base.spec_u64(), len),
    {
        let b = base.as_u64();
        proof {
            vstd::arithmetic::div_mod::lemma_mod_decreases(b as nat, SMALL_SIZE as nat);
            C::Addr::lemma_align_down_valid(b, SMALL_SIZE);
        }
        let aligned_base = b - b % SMALL_SIZE;
        proof {
            vstd::arithmetic::div_mod::lemma_fundamental_div_mod(b as int, SMALL_SIZE as int);
            vstd::arithmetic::div_mod::lemma_mod_multiples_basic(b as int / SMALL_SIZE as int, SMALL_SIZE as int);
            assert(aligned_base == (b as int / SMALL_SIZE as int) * SMALL_SIZE);
        }
        if aligned_base % LARGE_SIZE == 0 && len >= LARGE_SIZE {
            return AnyFragment::Large(Fragment::<C, Large>::new(C::Addr::new(aligned_base)));
        }
        if aligned_base % MEDIUM_SIZE == 0 && len >= MEDIUM_SIZE {
            return AnyFragment::Medium(Fragment::<C, Medium>::new(C::Addr::new(aligned_base)));
        }
        AnyFragment::Small(Fragment::<C, Small>::new(C::Addr::new(aligned_base)))
    }

    /// The next fragment, without moving on; `None` once no bytes are left.
    pub fn peek_next_fragment(&self) -> (r: Option<AnyFragment<C>>)
        ensures
            self.spec_remain() == 0 ==> r is None,
            self.spec_remain() > 0 ==> r == Some(self.spec_next()),
    {
        if self.remain == 0 {
            return None;
        }
        Some(self.base_prim)
    }

    /// The next fragment, moving on past it; `None` once no bytes are left.
    pub fn next_fragment(&mut self) -> (r: Option<AnyFragment<C>>)
        requires
            old(self).wf(),
        ensures
            final(self).wf(),
            final(self).spec_len() == old(self).spec_len(),
            old(self).spec_remain() == 0 ==> r is None && *final(self) == *old(self),
            old(self).spec_remain() > 0 ==> {
                let n = old(self).spec_next();
                &&& r == Some(n)
                &&& final(self).spec_remain() == sat_sub(old(self).spec_remain(), n.spec_size())
                &&& (final(self).spec_next().spec_start(), final(self).spec_next().spec_size())
                    == first_fragment((n.spec_start() + n.spec_size()) as u64, final(self).spec_remain())
                &&& final(self).spec_next().spec_start() == n.spec_start() + n.spec_size()
            },
            old(self).spec_remain() > 0 ==> final(self).spec_remain() < old(self).spec_remain(),
            fragment_walk(old(self).spec_next().spec_start(), old(self).spec_remain()) == match r {
                Some(n) => seq![(n.spec_start(), n.spec_size())] + fragment_walk(
                    final(self).spec_next().spec_start(),
                    final(self).spec_remain(),
                ),
                None => Seq::<(u64, u64)>::empty(),
            },
    {
        if self.remain == 0 {
            return None;
        }
        let next_prim = self.base_prim;
        let next_prim_size = next_prim.size();
        let start = next_prim.start_address().as_u64();
        proof {
            self.lemma_next_end();
        }
        let next_prim_end = C::Addr::new(start + next_prim_size);
        self.remain = self.remain.saturating_sub(next_prim_size);
        self.base_prim = Self::next_prim(next_prim_end, self.remain);
        proof {
            self.lemma_advanced(old(self).remain, start, next_prim_size);
        }
        Some(next_prim)
    }

    /// While bytes are left, the end of the next fragment is a valid address within the span,
    /// and the next fragment is no larger than the bytes left, unless it is a small page.
    proof fn lemma_next_end(&self)
        requires
            self.wf(),
            self.spec_remain() > 0,
        ensures
            ({
                let s = self.spec_next().spec_start();
                let z = self.spec_next().spec_size();
                &&& z == SMALL_SIZE || z <= self.spec_remain()
                &&& z <= round_up_small(self.spec_remain() as int)
                &&& s + z <= u64::MAX
                &&& C::Addr::spec_valid((s + z) as u64)
            }),
    {
        reveal(valid_span);
        let s = self.spec_next().spec_start();
        let z = self.spec_next().spec_size();
        let r = self.spec_remain() as int;
        vstd::arithmetic::div_mod::lemma_fundamental_div_mod(r, SMALL_SIZE as int);
        assert(C::Addr::spec_valid((s + z) as u64));
    }

    /// While bytes are left, every address from the next fragment's start up to the bytes left
    /// rounded up to a small page is valid.
    proof fn lemma_valid_within(&self, w: u64)
        requires
            self.wf(),
            self.spec_remain() > 0,
            self.spec_next().spec_start() <= w <= self.spec_next().spec_start() + round_up_small(self.spec_remain() as int),
        ensures
            C::Addr::spec_valid(w),
    {
        reveal(valid_span);
    }

    /// After moving past a fragment of size `z` that started at `s` with `rem` bytes left,
    /// the mapper is well formed again.
    proof fn lemma_advanced(&self, rem: u64, s: u64, z: u64)
        requires
            rem > 0,
            s % SMALL_SIZE == 0,
            z == SMALL_SIZE || z == MEDIUM_SIZE || z == LARGE_SIZE,
            z == SMALL_SIZE || z <= rem,
            s + round_up_small(rem as int) <= u64::MAX,
            valid_span::<C::Addr>(s as int, s + round_up_small(rem as int)),
            self.spec_remain() == sat_sub(rem, z),
            (self.spec_next().spec_start(), self.spec_next().spec_size()) == first_fragment((s + z) as u64, self.spec_remain()),
        ensures
            self.wf(),
            self.spec_next().spec_start() == s + z,
    {
        reveal(valid_span);
        let e = s + z;
        assert(e % SMALL_SIZE as int == 0) by {
            vstd::arithmetic::div_mod::lemma_add_mod_noop(s as int, z as int, SMALL_SIZE as int);
        }
        assert(self.spec_next().spec_start() == e);
        if self.spec_remain() > 0 {
            let nr = self.spec_remain() as int;
            assert(nr == rem - z);
            assert(round_up_small(nr) + z == round_up_small(rem as int)) by {
                vstd::arithmetic::div_mod::lemma_add_mod_noop(nr, z as int, SMALL_SIZE as int);
            }
        }
    }

    /// Takes a fragment of the same size as `prim` from the start of the next fragment and
    /// moves on past it; `None` once no bytes are left, or when `prim` is medium and at most a
    /// small page is left, or large and at most a medium page is left. Otherwise `prim` must
    /// be no larger than the next fragment.
    pub fn try_take_same<D: PrimitiveClass>(&mut self, prim: AnyFragment<D>) -> (r: Option<AnyFragment<C>>)
        requires
            old(self).wf(),
            old(self).spec_remain() > 0 && !(prim is Medium && old(self).spec_remain() <= SMALL_SIZE) && !(prim is Large
                && old(self).spec_remain() <= MEDIUM_SIZE) ==> prim.spec_size() <= old(self).spec_next().spec_size(),
        ensures
            final(self).wf(),
            final(self).spec_len() == old(self).spec_len(),
            ({
                let n = old(self).spec_next();
                let z = prim.spec_size();
                if old(self).spec_remain() == 0 || (prim is Medium && old(self).spec_remain() <= SMALL_SIZE) || (prim is Large
                    && old(self).spec_remain() <= MEDIUM_SIZE) {
                    r is None && *final(self) == *old(self)
                } else {
                    &&& r matches Some(f)
                    &&& f.spec_start() == n.spec_start()
                    &&& f.spec_size() == z
                    &&& final(self).spec_remain() == sat_sub(old(self).spec_remain(), z)
                    &&& (final(self).spec_next().spec_start(), final(self).spec_next().spec_size())
                        == first_fragment((n.spec_start() + z) as u64, final(self).spec_remain())
                    &&& final(self).spec_next().spec_start() == n.spec_start() + z
                }
            }),
    {
        if self.remain == 0 {
            return None;
        }
        let start = self.base_prim;
        let start_addr = self.base_prim.start_address().as_u64();
        let ghost rem = self.remain;
        proof {
            self.lemma_next_end();
        }
        match prim {
            AnyFragment::Small(_) => {
                let frag = start.downsize_as::<Small>();
                proof {
                    self.lemma_valid_within((start_addr + SMALL_SIZE) as u64);
                }
                self.remain = self.remain.saturating_sub(SMALL_SIZE);
                self.base_prim = Self::next_prim(C::Addr::new(start_addr + SMALL_SIZE), self.remain);
                proof {
                    self.lemma_advanced(rem, start_addr, SMALL_SIZE);
                }
                Some(AnyFragment::Small(frag))
            },
            AnyFragment::Medium(_) => {
                if self.remain <= SMALL_SIZE {
                    return None;
                }
                let frag = start.downsize_as::<Medium>();
                proof {
                    self.lemma_valid_within((start_addr + MEDIUM_SIZE) as u64);
                }
                self.remain = self.remain.saturating_sub(MEDIUM_SIZE);
                self.base_prim = Self::next_prim(C::Addr::new(start_addr + MEDIUM_SIZE), self.remain);
                proof {
                    self.lemma_advanced(rem, start_addr, MEDIUM_SIZE);
                }
                Some(AnyFragment::Medium(frag))
            },
            AnyFragment::Large(_) => {
                if self.remain <= MEDIUM_SIZE {
                    return None;
                }
                let frag = start.downsize_as::<Large>();
                proof {
                    self.lemma_valid_within((start_addr + LARGE_SIZE) as u64);
                }
                self.remain = self.remain.saturating_sub(LARGE_SIZE);
                self.base_prim = Self::next_prim(C::Addr::new(start_addr + LARGE_SIZE), self.remain);
                proof {
                    self.lemma_advanced(rem, start_addr, LARGE_SIZE);
                }
                Some(AnyFragment::Large(frag))
            },
        }
    }
}

/// Pairs the fragments of a virtual range with those of a physical range of the same length:
/// each pair is a page and a frame of the same size.
#[derive(Clone, Copy, PartialEq, Eq, Debug)]
pub struct JointFragmentMapper {
    page_mapper: GreedyFragmentMapper<PageClass>,
    frame_mapper: GreedyFragmentMapper<FrameClass>,
}

impl JointFragmentMapper {
    /// The splitter of the virtual range.
    pub closed spec fn spec_pages(&self) -> GreedyFragmentMapper<PageClass> {
        self.page_mapper
    }

    /// The splitter of the physical range.
    pub closed spec fn spec_frames(&self) -> GreedyFragmentMapper<FrameClass> {
        self.frame_mapper
    }

    /// Both splitters are well formed and have the same bytes left.
    pub open spec fn wf(&self) -> bool {
        &&& self.spec_pages().wf()
        &&& self.spec_frames().wf()
        &&& self.spec_pages().spec_remain() == self.spec_frames().spec_remain()
    }

    /// Pairs the `len` bytes from `virt_base` with the `len` bytes from `phys_base`; both
    /// ranges, from their bases rounded down to a small page and with `len` rounded up to a
    /// small page, must be valid addresses.
    pub fn new(virt_base: VirtAddr, phys_base: PhysAddr, len: u64) -> (r: JointFragmentMapper)
        requires
            ({
                let s = virt_base@ - virt_base@ % SMALL_SIZE;
                &&& s + round_up_small(len as int) <= u64::MAX
                &&& valid_span::<VirtAddr>(s, s + round_up_small(len as int))
            }),
            ({
                let s = phys_base@ - phys_base@ % SMALL_SIZE;
                &&& s + round_up_small(len as int) <= u64::MAX
                &&& valid_span::<PhysAddr>(s, s + round_up_small(len as int))
            }),
        ensures
            r.wf(),
            (r.spec_pages().spec_next().spec_start(), r.spec_pages().spec_next().spec_size()) == first_fragment(virt_base@, len),
            (r.spec_frames().spec_next().spec_start(), r.spec_frames().spec_next().spec_size()) == first_fragment(phys_base@, len),
            r.spec_pages().spec_remain() == len,
    {
        JointFragmentMapper {
            page_mapper: GreedyFragmentMapper::new(virt_base, len),
            frame_mapper: GreedyFragmentMapper::new(phys_base, len),
        }
    }

    /// The next page and frame, of the same size: the smaller of the next fragments of the two
    /// ranges, both taken from the start of their range; `None` once no bytes are left.
    pub fn next(&mut self) -> (r: Option<(AnyFragment<PageClass>, AnyFragment<FrameClass>)>)
        requires
            old(self).wf(),
        ensures
            final(self).wf(),
            ({
                let p = old(self).spec_pages().spec_next();
                let f = old(self).spec_frames().spec_next();
                let z = if p.spec_size() <= f.spec_size() {
                    p.spec_size()
                } else {
                    f.spec_size()
                };
                if old(self).spec_pages().spec_remain() == 0 {
                    r is None
                } else {
                    &&& r matches Some((pg, fr))
                    &&& pg.spec_start() == p.spec_start() && fr.spec_start() == f.spec_start()
                    &&& pg.spec_size() == z && fr.spec_size() == z
                    &&& final(self).spec_pages().spec_remain() == sat_sub(old(self).spec_pages().spec_remain(), z)
                    &&& final(self).spec_pages().spec_next().spec_start() == p.spec_start() + z
                    &&& final(self).spec_frames().spec_next().spec_start() == f.spec_start() + z
                }
            }),
    {
        let page_frag = match self.page_mapper.peek_next_fragment() {
            Some(f) => f,
            None => {
                return None;
            },
        };
        let frame_frag = match self.frame_mapper.peek_next_fragment() {
            Some(f) => f,
            None => {
                return None;
            },
        };
        let ps = page_frag.size();
        let fs = frame_frag.size();
        if ps == fs {
            Some(self.take_both())
        } else if ps < fs {
            Some(self.take_page_first())
        } else {
            Some(self.take_frame_first())
        }
    }

    /// Takes the next page and frame, which have the same size.
    #[verifier::rlimit(40)]
    fn take_both(&mut self) -> (r: (AnyFragment<PageClass>, AnyFragment<FrameClass>))
        requires
            old(self).wf(),
            old(self).spec_pages().spec_remain() > 0,
            old(self).spec_pages().spec_next().spec_size() == old(self).spec_frames().spec_next().spec_size(),
        ensures
            final(self).wf(),
            ({
                let p = old(self).spec_pages().spec_next();
                let f = old(self).spec_frames().spec_next();
                let z = p.spec_size();
                &&& r.0.spec_start() == p.spec_start() && r.1.spec_start() == f.spec_start()
                &&& r.0.spec_size() == z && r.1.spec_size() == z
                &&& final(self).spec_pages().spec_remain() == sat_sub(old(self).spec_pages().spec_remain(), z)
                &&& final(self).spec_pages().spec_next().spec_start() == p.spec_start() + z
                &&& final(self).spec_frames().spec_next().spec_start() == f.spec_start() + z
            }),
    {
        let ghost r0 = self.page_mapper.spec_remain();
        let p = self.page_mapper.next_fragment();
        assert(self.page_mapper.spec_remain() == sat_sub(r0, p->Some_0.spec_size()));
        let f = self.frame_mapper.next_fragment();
        assert(self.frame_mapper.spec_remain() == sat_sub(r0, f->Some_0.spec_size()));
        (p.unwrap(), f.unwrap())
    }

    /// Takes the next page, smaller than the next frame, and a frame of its size.
    #[verifier::rlimit(40)]
    fn take_page_first(&mut self) -> (r: (AnyFragment<PageClass>, AnyFragment<FrameClass>))
        requires
            old(self).wf(),
            old(self).spec_pages().spec_remain() > 0,
            old(self).spec_pages().spec_next().spec_size() < old(self).spec_frames().spec_next().spec_size(),
        ensures
            final(self).wf(),
            ({
                let p = old(self).spec_pages().spec_next();
                let f = old(self).spec_frames().spec_next();
                let z = p.spec_size();
                &&& r.0.spec_start() == p.spec_start() && r.1.spec_start() == f.spec_start()
                &&& r.0.spec_size() == z && r.1.spec_size() == z
                &&& final(self).spec_pages().spec_remain() == sat_sub(old(self).spec_pages().spec_remain(), z)
                &&& final(self).spec_pages().spec_next().spec_start() == p.spec_start() + z
                &&& final(self).spec_frames().spec_next().spec_start() == f.spec_start() + z
            }),
    {
        proof {
            lemma_first_fragment(self.page_mapper.spec_next().spec_start(), self.page_mapper.spec_remain());
        }
        let ghost r0 = self.page_mapper.spec_remain();
        let p = self.page_mapper.next_fragment().unwrap();
        assert(self.page_mapper.spec_remain() == sat_sub(r0, p.spec_size()));
        let f = self.frame_mapper.try_take_same(p).unwrap();
        assert(self.frame_mapper.spec_remain() == sat_sub(r0, p.spec_size()));
        (p, f)
    }

    /// Takes the next frame, smaller than the next page, and a page of its size.
    #[verifier::rlimit(40)]
    fn take_frame_first(&mut self) -> (r: (AnyFragment<PageClass>, AnyFragment<FrameClass>))
        requires
            old(self).wf(),
            old(self).spec_pages().spec_remain() > 0,
            old(self).spec_frames().spec_next().spec_size() < old(self).spec_pages().spec_next().spec_size(),
        ensures
            final(self).wf(),
            ({
                let p = old(self).spec_pages().spec_next();
                let f = old(self).spec_frames().spec_next();
                let z = f.spec_size();
                &&& r.0.spec_start() == p.spec_start() && r.1.spec_start() == f.spec_start()
                &&& r.0.spec_size() == z && r.1.spec_size() == z
                &&& final(self).spec_pages().spec_remain() == sat_sub(old(self).spec_pages().spec_remain(), z)
                &&& final(self).spec_pages().spec_next().spec_start() == p.spec_start() + z
                &&& final(self).spec_frames().spec_next().spec_start() == f.spec_start() + z
            }),
    {
        proof {
            lemma_first_fragment(self.frame_mapper.spec_next().spec_start(), self.frame_mapper.spec_remain());
        }
        let ghost r0 = self.frame_mapper.spec_remain();
        let f = self.frame_mapper.next_fragment().unwrap();
        assert(self.frame_mapper.spec_remain() == sat_sub(r0, f.spec_size()));
        let p = self.page_mapper.try_take_same(f).unwrap();
        assert(self.page_mapper.spec_remain() == sat_sub(r0, f.spec_size()));
        (p, f)
    }
}

/// The fragment a range begins with is small, or no larger than the bytes left.
proof fn lemma_first_fragment(base: u64, len: u64)
    ensures
        ({
            let z = first_fragment(base, len).1;
            &&& z == SMALL_SIZE || z == MEDIUM_SIZE || z == LARGE_SIZE
            &&& z == MEDIUM_SIZE ==> len >= MEDIUM_SIZE
            &&& z == LARGE_SIZE ==> len >= LARGE_SIZE
        }),
{
}

} // verus!
