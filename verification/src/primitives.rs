//! Paging primitives: fragment sizes, pages and frames of a given size, fragments of any
//! size, address ranges and direct mappings.
use vstd::prelude::*;
use core::marker::PhantomData;
use crate::addr::{Address, PhysAddr, VirtAddr};
use crate::align::{Alignment, align_down_spec, align_up_spec};

verus! {

/// The size of a small page, in bytes.
pub const SMALL_SIZE: u64 = 0x1000u64;

/// The size of a medium page, in bytes.
pub const MEDIUM_SIZE: u64 = 0x20_0000u64;

/// The size of a large page, in bytes.
pub const LARGE_SIZE: u64 = 0x4000_0000u64;

/// `s` is one of the three page sizes.
pub open spec fn is_page_size(s: u64) -> bool {
    s == SMALL_SIZE || s == MEDIUM_SIZE || s == LARGE_SIZE
}

/// A page size of the architecture.
pub trait FragmentSize: Sized + Copy + PartialEq + Eq + core::fmt::Debug {
    /// The size in bytes.
    spec fn spec_size() -> u64;

    /// The page-table level that maps fragments of this size.
    spec fn spec_level() -> u8;

    /// The size is one of the three page sizes, and the level is the one that maps it.
    proof fn lemma_size()
        ensures
            is_page_size(Self::spec_size()),
            Self::spec_level() == (if Self::spec_size() == SMALL_SIZE {
                1u8
            } else if Self::spec_size() == MEDIUM_SIZE {
                2u8
            } else {
                3u8
            }),
    ;

    /// The size in bytes.
    fn size() -> (r: u64)
        ensures
            r == Self::spec_size(),
    ;

    /// The page-table level that maps fragments of this size.
    fn level() -> (r: u8)
        ensures
            r == Self::spec_level(),
    ;

    /// The name of the size.
    fn name() -> &'static str;

    /// The number of small pages in one fragment of this size.
    fn bits() -> (r: u64)
        ensures
            r == Self::spec_size() / SMALL_SIZE,
    {
        Self::size() / SMALL_SIZE
    }

    /// Whether this size is larger than a small page.
    fn is_huge() -> (r: bool)
        ensures
            r == (Self::spec_size() > SMALL_SIZE),
    {
        Self::size() > SMALL_SIZE
    }

    /// The alignment of fragments of this size: the size itself.
    fn alignment() -> (r: Alignment)
        ensures
            r@ == Self::spec_size(),
    {
        proof {
            Self::lemma_size();
            crate::arch::lemma_shift_constants();
        }
        let s = Self::size();
        if s == SMALL_SIZE {
            Alignment::from_log2(12)
        } else if s == MEDIUM_SIZE {
            Alignment::from_log2(21)
        } else {
            Alignment::from_log2(30)
        }
    }
}

/// Small pages: 4 KiB.
#[derive(Clone, Copy, PartialEq, Eq, Debug)]
pub struct Small;

/// Medium pages: 2 MiB.
#[derive(Clone, Copy, PartialEq, Eq, Debug)]
pub struct Medium;

/// Large pages: 1 GiB.
#[derive(Clone, Copy, PartialEq, Eq, Debug)]
pub struct Large;

impl FragmentSize for Small {
    open spec fn spec_size() -> u64 {
        SMALL_SIZE
    }

    open spec fn spec_level() -> u8 {
        1
    }

    proof fn lemma_size() {
        assert(Self::spec_size() == SMALL_SIZE && Self::spec_level() == 1u8);
    }

    fn size() -> (r: u64) {
        SMALL_SIZE
    }

    fn level() -> (r: u8) {
        1
    }

    fn name() -> (r: &'static str)
        ensures
            r@ == "Small"@,
    {
        "Small"
    }
}

impl FragmentSize for Medium {
    open spec fn spec_size() -> u64 {
        MEDIUM_SIZE
    }

    open spec fn spec_level() -> u8 {
        2
    }

    proof fn lemma_size() {
        assert(Self::spec_size() == MEDIUM_SIZE && Self::spec_level() == 2u8);
    }

    fn size() -> (r: u64) {
        MEDIUM_SIZE
    }

    fn level() -> (r: u8) {
        2
    }

    fn name() -> (r: &'static str)
        ensures
            r@ == "Medium"@,
    {
        "Medium"
    }
}

impl FragmentSize for Large {
    open spec fn spec_size() -> u64 {
        LARGE_SIZE
    }

    open spec fn spec_level() -> u8 {
        3
    }

    proof fn lemma_size() {
        assert(Self::spec_size() == LARGE_SIZE && Self::spec_level() == 3u8);
    }

    fn size() -> (r: u64) {
        LARGE_SIZE
    }

    fn level() -> (r: u8) {
        3
    }

    fn name() -> (r: &'static str)
        ensures
            r@ == "Large"@,
    {
        "Large"
    }
}

/// A multiple of a page size is a multiple of every smaller page size.
pub proof fn lemma_size_divides(x: int, big: u64, small: u64)
    requires
        is_page_size(big),
        is_page_size(small),
        small <= big,
        x % (big as int) == 0,
    ensures
        x % (small as int) == 0,
{
    let b = big as int;
    let s = small as int;
    if small == SMALL_SIZE {
        assert(0x1000int % 0x1000int == 0 && 0x20_0000int % 0x1000int == 0 && 0x4000_0000int % 0x1000int == 0);
    } else if small == MEDIUM_SIZE {
        assert(0x20_0000int % 0x20_0000int == 0 && 0x4000_0000int % 0x20_0000int == 0);
    } else {
        assert(0x4000_0000int % 0x4000_0000int == 0);
    }
    assert(b % s == 0);
    vstd::arithmetic::div_mod::lemma_fundamental_div_mod(x, b);
    vstd::arithmetic::div_mod::lemma_fundamental_div_mod(b, s);
    let q = x / b;
    let k = b / s;
    assert(x == (k * q) * s) by (nonlinear_arith)
        requires
            x == b * q,
            b == s * k,
    ;
    vstd::arithmetic::div_mod::lemma_mod_multiples_basic(k * q, s);
}

/// A family of memory primitives: pages with virtual addresses, or frames with physical ones.
pub trait PrimitiveClass: Sized + Copy + PartialEq + Eq + core::fmt::Debug {
    /// The address type of the family.
    type Addr: Address + PartialEq + Eq + core::fmt::Debug;
}

/// Pages and virtual addresses.
#[derive(Clone, Copy, PartialEq, Eq, Debug)]
pub struct PageClass;

/// Frames and physical addresses.
#[derive(Clone, Copy, PartialEq, Eq, Debug)]
pub struct FrameClass;

impl PrimitiveClass for PageClass {
    type Addr = VirtAddr;
}

impl PrimitiveClass for FrameClass {
    type Addr = PhysAddr;
}

/// A fragment of memory of size `S` in the family `C`, identified by its start address,
/// which is a multiple of the size.
#[derive(Copy, PartialEq, Eq, Debug)]
pub struct Fragment<C: PrimitiveClass, S: FragmentSize> {
    start_address: C::Addr,
    _size_marker: PhantomData<S>,
}

impl<C: PrimitiveClass, S: FragmentSize> Clone for Fragment<C, S> {
    fn clone(&self) -> (r: Self)
        ensures
            r == *self,
    {
        *self
    }
}

/// A virtual page of size `S`.
pub type Page<S> = Fragment<PageClass, S>;

/// A physical frame of size `S`.
pub type Frame<S> = Fragment<FrameClass, S>;

impl<C: PrimitiveClass, S: FragmentSize> Fragment<C, S> {
    #[verifier::type_invariant]
    spec fn inv(self) -> bool {
        self.start_address.spec_u64() % S::spec_size() == 0
    }

    /// The start address.
    pub closed spec fn view(self) -> u64 {
        self.start_address.spec_u64()
    }

    /// Creates the fragment starting at `start_address`, which must be a multiple of the size.
    pub fn new(start_address: C::Addr) -> (r: Self)
        requires
            start_address.spec_u64() % S::spec_size() == 0,
        ensures
            r@ == start_address.spec_u64(),
    {
        Fragment { start_address, _size_marker: PhantomData }
    }

    /// Creates the fragment starting at `start_address`, or `None` when the address is not a
    /// multiple of the size.
    pub fn try_new(start_address: C::Addr) -> (r: Option<Self>)
        ensures
            r is Some <==> start_address.spec_u64() % S::spec_size() == 0,
            r matches Some(f) ==> f@ == start_address.spec_u64(),
    {
        proof {
            S::lemma_size();
        }
        let a = start_address.as_u64();
        if a % S::size() == 0 {
            Some(Fragment { start_address, _size_marker: PhantomData })
        } else {
            None
        }
    }

    /// Creates the fragment starting at `start_address`, or `None` when the address is not a
    /// multiple of the size.
    pub fn from_start_address(start_address: C::Addr) -> (r: Option<Self>)
        ensures
            r is Some <==> start_address.spec_u64() % S::spec_size() == 0,
            r matches Some(f) ==> f@ == start_address.spec_u64(),
    {
        Self::try_new(start_address)
    }

    /// The fragment that contains `addr`.
    pub fn containing_address(addr: C::Addr) -> (r: Self)
        ensures
            r@ == align_down_spec(addr.spec_u64() as int, S::spec_size() as int),
    {
        proof {
            S::lemma_size();
        }
        let a = addr.as_u64();
        let s = S::size();
        proof {
            vstd::arithmetic::div_mod::lemma_mod_decreases(a as nat, s as nat);
        }
        let base = a - a % s;
        proof {
            C::Addr::lemma_align_down_valid(a, s);
            vstd::arithmetic::div_mod::lemma_fundamental_div_mod(a as int, s as int);
            vstd::arithmetic::div_mod::lemma_mod_multiples_basic(a as int / s as int, s as int);
            assert(base == (a as int / s as int) * s);
        }
        Fragment { start_address: C::Addr::new(base), _size_marker: PhantomData }
    }

    /// The start address, which is a multiple of the size.
    pub fn start_address(&self) -> (r: C::Addr)
        ensures
            r.spec_u64() == self@,
            self@ % S::spec_size() == 0,
            is_page_size(S::spec_size()),
    {
        proof {
            use_type_invariant(self);
            S::lemma_size();
        }
        self.start_address
    }
}

/// A fragment of the family `C` of any of the three sizes.
#[derive(Clone, Copy, PartialEq, Eq, Debug)]
pub enum AnyFragment<C: PrimitiveClass> {
    /// A small fragment.
    Small(Fragment<C, Small>),
    /// A medium fragment.
    Medium(Fragment<C, Medium>),
    /// A large fragment.
    Large(Fragment<C, Large>),
}

/// A page of any size.
pub type AnyPage = AnyFragment<PageClass>;

/// A frame of any size.
pub type AnyFrame = AnyFragment<FrameClass>;

impl<C: PrimitiveClass> AnyFragment<C> {
    /// The start address.
    pub open spec fn spec_start(self) -> u64 {
        match self {
            AnyFragment::Small(f) => f@,
            AnyFragment::Medium(f) => f@,
            AnyFragment::Large(f) => f@,
        }
    }

    /// The size in bytes.
    pub open spec fn spec_size(self) -> u64 {
        match self {
            AnyFragment::Small(_) => SMALL_SIZE,
            AnyFragment::Medium(_) => MEDIUM_SIZE,
            AnyFragment::Large(_) => LARGE_SIZE,
        }
    }

    /// Wraps a fragment of a known size.
    pub fn from<S: FragmentSize>(f: Fragment<C, S>) -> (r: Self)
        ensures
            r.spec_start() == f@,
            r.spec_size() == S::spec_size(),
    {
        let s = S::size();
        let a = f.start_address();
        if s == SMALL_SIZE {
            AnyFragment::Small(Fragment::new(a))
        } else if s == MEDIUM_SIZE {
            AnyFragment::Medium(Fragment::new(a))
        } else {
            AnyFragment::Large(Fragment::new(a))
        }
    }

    /// The start address, which is a multiple of the size.
    pub fn start_address(&self) -> (r: C::Addr)
        ensures
            r.spec_u64() == self.spec_start(),
            self.spec_start() % self.spec_size() == 0,
    {
        match self {
            AnyFragment::Small(f) => f.start_address(),
            AnyFragment::Medium(f) => f.start_address(),
            AnyFragment::Large(f) => f.start_address(),
        }
    }

    /// The size in bytes.
    pub fn size(&self) -> (r: u64)
        ensures
            r == self.spec_size(),
    {
        match self {
            AnyFragment::Small(_) => SMALL_SIZE,
            AnyFragment::Medium(_) => MEDIUM_SIZE,
            AnyFragment::Large(_) => LARGE_SIZE,
        }
    }

    /// The fragment of size `S` at the same start address; `S` must not be larger than this
    /// fragment.
    pub fn downsize_as<S: FragmentSize>(self) -> (r: Fragment<C, S>)
        requires
            S::spec_size() <= self.spec_size(),
        ensures
            r@ == self.spec_start(),
    {
        let a = self.start_address();
        proof {
            S::lemma_size();
            lemma_size_divides(self.spec_start() as int, self.spec_size(), S::spec_size());
        }
        Fragment::new(a)
    }

    /// The fragment as one of size `S`, which must be its size.
    pub fn unwrap_as<S: FragmentSize>(self) -> (r: Fragment<C, S>)
        requires
            S::spec_size() == self.spec_size(),
        ensures
            r@ == self.spec_start(),
    {
        Fragment::new(self.start_address())
    }

    /// Calls the function that matches the size of the fragment with the fragment and `params`.
    pub fn dissect_with<Lf, Mf, Sf, P, R>(self, lf: Lf, mf: Mf, sf: Sf, params: P) -> (r: R) where
        Sf: FnOnce(Fragment<C, Small>, P) -> R,
        Mf: FnOnce(Fragment<C, Medium>, P) -> R,
        Lf: FnOnce(Fragment<C, Large>, P) -> R,

        requires
            self matches AnyFragment::Small(f) ==> sf.requires((f, params)),
            self matches AnyFragment::Medium(f) ==> mf.requires((f, params)),
            self matches AnyFragment::Large(f) ==> lf.requires((f, params)),
        ensures
            self matches AnyFragment::Small(f) ==> sf.ensures((f, params), r),
            self matches AnyFragment::Medium(f) ==> mf.ensures((f, params), r),
            self matches AnyFragment::Large(f) ==> lf.ensures((f, params), r),
    {
        match self {
            AnyFragment::Small(f) => sf(f, params),
            AnyFragment::Medium(f) => mf(f, params),
            AnyFragment::Large(f) => lf(f, params),
        }
    }
}

/// A range of addresses from `start` (included) to `end` (excluded).
#[derive(Clone, Copy, PartialEq, Eq, Debug)]
pub struct MemoryRange<A: Address> {
    start: A,
    end: A,
}

/// A range of physical addresses.
pub type PhysRange = MemoryRange<PhysAddr>;

/// A range of virtual addresses.
pub type VirtRange = MemoryRange<VirtAddr>;

impl<A: Address> MemoryRange<A> {
    /// The start address.
    pub closed spec fn spec_start(self) -> u64 {
        self.start.spec_u64()
    }

    /// The end address.
    pub closed spec fn spec_end(self) -> u64 {
        self.end.spec_u64()
    }

    /// Creates the range from `start` to `end`; `start` must not be above `end`.
    pub fn new(start: A, end: A) -> (r: Self)
        requires
            start.spec_u64() <= end.spec_u64(),
        ensures
            r.spec_start() == start.spec_u64(),
            r.spec_end() == end.spec_u64(),
    {
        MemoryRange { start, end }
    }

    /// Creates the range from `start` to `end`, or `None` when `start` is above `end`; a
    /// range with `start == end` is empty.
    pub fn try_new(start: A, end: A) -> (r: Option<Self>)
        ensures
            r is Some <==> start.spec_u64() <= end.spec_u64(),
            r matches Some(m) ==> m.spec_start() == start.spec_u64() && m.spec_end()
                == end.spec_u64(),
    {
        if start.as_u64() <= end.as_u64() {
            Some(MemoryRange { start, end })
        } else {
            None
        }
    }

    /// Creates the range of `length` bytes from `start`, or `None` when the end does not fit
    /// a `u64` or is not a valid address.
    pub fn try_new_len(start: A, length: u64) -> (r: Option<Self>)
        ensures
            r is Some <==> (start.spec_u64() + length <= u64::MAX && A::spec_valid(
                (start.spec_u64() + length) as u64,
            )),
            r matches Some(m) ==> m.spec_start() == start.spec_u64() && m.spec_end()
                == start.spec_u64() + length,
    {
        match start.checked_add(length) {
            Some(end) => Self::try_new(start, end),
            None => None,
        }
    }

    /// Creates the range of `length` bytes from `start`; the end must be a valid address.
    pub fn new_len(start: A, length: u64) -> (r: Self)
        requires
            start.spec_u64() + length <= u64::MAX,
            A::spec_valid((start.spec_u64() + length) as u64),
        ensures
            r.spec_start() == start.spec_u64(),
            r.spec_end() == start.spec_u64() + length,
    {
        match Self::try_new_len(start, length) {
            Some(m) => m,
            None => MemoryRange { start, end: start },
        }
    }

    /// The start address.
    pub fn start(&self) -> (r: A)
        ensures
            r.spec_u64() == self.spec_start(),
    {
        self.start
    }

    /// The end address.
    pub fn end(&self) -> (r: A)
        ensures
            r.spec_u64() == self.spec_end(),
    {
        self.end
    }

    /// The size of the range in bytes; the start must not be past the end.
    pub fn size(&self) -> (r: u64)
        requires
            self.spec_start() <= self.spec_end(),
        ensures
            r == self.spec_end() - self.spec_start(),
    {
        self.end.as_u64() - self.start.as_u64()
    }

    /// The range with its start rounded up to a multiple of the size `S`, or `None` when the
    /// rounded start does not fit a `u64`, is not a valid address, or is not below the end.
    pub fn align_up_to<S: FragmentSize>(&self) -> (r: Option<MemoryRange<A>>)
        ensures
            ({
                let up = align_up_spec(self.spec_start() as int, S::spec_size() as int);
                &&& r is Some <==> (up <= u64::MAX && A::spec_valid(up as u64) && up
                    < self.spec_end())
                &&& r matches Some(m) ==> m.spec_start() == up && m.spec_end() == self.spec_end()
            }),
    {
        proof {
            S::lemma_size();
        }
        let s = S::size();
        let v = self.start.as_u64();
        let rem = v % s;
        proof {
            vstd::arithmetic::div_mod::lemma_mod_decreases(v as nat, s as nat);
        }
        let up: u64 = if rem == 0 {
            v
        } else {
            if v > u64::MAX - (s - rem) {
                return None;
            }
            v - rem + s
        };
        let aligned_start = match A::try_new(up) {
            Some(a) => a,
            None => return None,
        };
        if aligned_start.as_u64() >= self.end.as_u64() {
            return None;
        }
        Some(MemoryRange { start: aligned_start, end: self.end })
    }

    /// The range shortened to `new_size` bytes from the same start; `new_size` must not
    /// exceed the size, and the new end must be a valid address.
    pub fn truncate(self, new_size: u64) -> (r: Self)
        requires
            self.spec_start() + new_size <= self.spec_end(),
            A::spec_valid((self.spec_start() + new_size) as u64),
        ensures
            r.spec_start() == self.spec_start(),
            r.spec_end() == self.spec_start() + new_size,
    {
        let new_end = self.start.as_u64() + new_size;
        MemoryRange { start: self.start, end: A::new(new_end) }
    }

    /// The range with its start rounded up and its end rounded down to multiples of `align`;
    /// both must be valid addresses, and the rounded start must fit a `u64`.
    pub fn align_barriers(self, align: Alignment) -> (r: Self)
        requires
            align_up_spec(self.spec_start() as int, align@ as int) <= u64::MAX,
            A::spec_valid(#[verifier::truncate] (align_up_spec(self.spec_start() as int, align@ as int) as u64)),
            A::spec_valid(#[verifier::truncate] (align_down_spec(self.spec_end() as int, align@ as int) as u64)),
        ensures
            r.spec_start() == align_up_spec(self.spec_start() as int, align@ as int),
            r.spec_end() == align_down_spec(self.spec_end() as int, align@ as int),
    {
        let a = align.as_u64();
        let v = self.start.as_u64();
        let rem = v % a;
        let e = self.end.as_u64();
        proof {
            vstd::arithmetic::div_mod::lemma_mod_decreases(v as nat, a as nat);
            vstd::arithmetic::div_mod::lemma_mod_decreases(e as nat, a as nat);
        }
        let up: u64 = if rem == 0 {
            v
        } else {
            v - rem + a
        };
        let down = e - e % a;
        MemoryRange { start: A::new(up), end: A::new(down) }
    }
}

/// A page mapped to a frame of the same size.
#[derive(Clone, Copy, PartialEq, Eq, Debug)]
pub enum DirectMapping {
    /// A small page and frame.
    Small(Page<Small>, Frame<Small>),
    /// A medium page and frame.
    Medium(Page<Medium>, Frame<Medium>),
    /// A large page and frame.
    Large(Page<Large>, Frame<Large>),
}

impl DirectMapping {
    /// The page and frame start addresses and the size of the mapping.
    pub open spec fn spec_parts(self) -> (u64, u64, u64) {
        match self {
            DirectMapping::Small(p, f) => (p@, f@, SMALL_SIZE),
            DirectMapping::Medium(p, f) => (p@, f@, MEDIUM_SIZE),
            DirectMapping::Large(p, f) => (p@, f@, LARGE_SIZE),
        }
    }

    /// The page.
    pub fn page(&self) -> (r: AnyPage)
        ensures
            r.spec_start() == self.spec_parts().0,
            r.spec_size() == self.spec_parts().2,
    {
        match self {
            DirectMapping::Small(p, _) => AnyFragment::Small(*p),
            DirectMapping::Medium(p, _) => AnyFragment::Medium(*p),
            DirectMapping::Large(p, _) => AnyFragment::Large(*p),
        }
    }

    /// The frame.
    pub fn frame(&self) -> (r: AnyFrame)
        ensures
            r.spec_start() == self.spec_parts().1,
            r.spec_size() == self.spec_parts().2,
    {
        match self {
            DirectMapping::Small(_, f) => AnyFragment::Small(*f),
            DirectMapping::Medium(_, f) => AnyFragment::Medium(*f),
            DirectMapping::Large(_, f) => AnyFragment::Large(*f),
        }
    }

    /// Maps `page` to `frame`.
    pub fn new<S: FragmentSize>(page: Page<S>, frame: Frame<S>) -> (r: Self)
        ensures
            r.spec_parts() == (page@, frame@, S::spec_size()),
    {
        let p = AnyFragment::from(page);
        let f = AnyFragment::from(frame);
        let s = S::size();
        if s == SMALL_SIZE {
            DirectMapping::Small(p.unwrap_as(), f.unwrap_as())
        } else if s == MEDIUM_SIZE {
            DirectMapping::Medium(p.unwrap_as(), f.unwrap_as())
        } else {
            proof {
                S::lemma_size();
            }
            DirectMapping::Large(p.unwrap_as(), f.unwrap_as())
        }
    }
}

} // verus!
