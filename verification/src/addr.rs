//! Physical and virtual address types, alignments and layouts.
use vstd::prelude::*;
use crate::arch::{
    canonical_phys, canonical_virt, canonicalize_phys, canonicalize_virt, is_valid_phys,
    is_valid_virt, lemma_canonical_phys, lemma_canonical_virt, valid_phys, valid_virt,
    PHYSICAL_ADDRESS_MAX, VIRTUAL_ADDRESS_MAX, VIRT_HIGH_BITS, VIRT_SIGN_BIT,
};

verus! {

/// A type whose values are addresses of one address space.
pub trait Address: Sized + Copy {
    /// Whether `v` is a valid address of this space.
    spec fn spec_valid(v: u64) -> bool;

    /// The canonical address the hardware uses for the raw value `v`.
    spec fn spec_canonical(v: u64) -> u64;

    /// The raw value of this address.
    spec fn spec_u64(&self) -> u64;

    /// Returns the raw value of this address, which is always valid.
    fn as_u64(&self) -> (r: u64)
        ensures
            r == self.spec_u64(),
            Self::spec_valid(r),
    ;

    /// Creates an address from `val`, or `None` if `val` is not a valid address.
    fn try_new(val: u64) -> (r: Option<Self>)
        ensures
            r is Some <==> Self::spec_valid(val),
            r matches Some(a) ==> a.spec_u64() == val,
    ;

    /// Creates an address from `val`, which must be valid.
    fn new(val: u64) -> (r: Self)
        requires
            Self::spec_valid(val),
        ensures
            r.spec_u64() == val,
    ;

    /// Creates an address from the canonical form of `val`.
    fn new_truncate(val: u64) -> (r: Self)
        ensures
            r.spec_u64() == Self::spec_canonical(val),
    ;

    /// Rounding a valid address down to a page size (4 KiB, 2 MiB or 1 GiB) keeps it valid.
    proof fn lemma_align_down_valid(v: u64, s: u64)
        requires
            Self::spec_valid(v),
            s == 0x1000 || s == 0x20_0000 || s == 0x4000_0000,
        ensures
            Self::spec_valid((v - v % s) as u64),
    ;

    /// Adds `rhs`, returning `None` when the sum overflows or is not a valid address.
    fn checked_add(&self, rhs: u64) -> (r: Option<Self>)
        ensures
            r is Some <==> (self.spec_u64() + rhs <= u64::MAX && Self::spec_valid(
                (self.spec_u64() + rhs) as u64,
            )),
            r matches Some(a) ==> a.spec_u64() == self.spec_u64() + rhs,
    ;
}

/// A physical address: a value that fits the physical address width.
#[derive(Clone, Copy, PartialEq, Eq, PartialOrd, Ord, Hash, Debug)]
pub struct PhysAddr(u64);

impl PhysAddr {
    #[verifier::type_invariant]
    spec fn inv(self) -> bool {
        valid_phys(self.0)
    }

    /// The raw value of the address.
    pub closed spec fn view(self) -> u64 {
        self.0
    }

    /// Creates a new physical address from `addr`, which must fit the physical address width.
    pub fn new(addr: u64) -> (r: PhysAddr)
        requires
            valid_phys(addr),
        ensures
            r@ == addr,
    {
        PhysAddr(addr)
    }

    /// Creates a physical address from `addr`, or `None` when `addr` does not fit the address width.
    pub fn try_new(addr: u64) -> (r: Option<PhysAddr>)
        ensures
            r is Some <==> valid_phys(addr),
            r matches Some(a) ==> a@ == addr,
    {
        if is_valid_phys(addr) {
            Some(PhysAddr(addr))
        } else {
            None
        }
    }

    /// Creates a physical address from `addr`, dropping the bits above the address width.
    pub fn new_truncate(addr: u64) -> (r: PhysAddr)
        ensures
            r@ == canonical_phys(addr),
    {
        PhysAddr(canonicalize_phys(addr))
    }

    /// Returns the raw value of the physical address.
    pub fn as_u64(&self) -> (r: u64)
        ensures
            r == self@,
            valid_phys(r),
    {
        proof {
            use_type_invariant(self);
        }
        self.0
    }

    /// Adds `offset` to this address, returning `None` if the sum overflows or leaves the
    /// physical address range.
    pub fn add_checked(&self, offset: u64) -> (r: Option<PhysAddr>)
        ensures
            r is Some <==> self@ + offset <= PHYSICAL_ADDRESS_MAX,
            r matches Some(a) ==> a@ == self@ + offset,
    {
        let res = match self.as_u64().checked_add(offset) {
            Some(val) => val,
            None => return None,
        };
        if res > PHYSICAL_ADDRESS_MAX {
            None
        } else {
            Some(PhysAddr::new(res))
        }
    }

    /// Adds `rhs`, returning `None` when the sum overflows or is not a valid physical address.
    pub fn checked_add(&self, rhs: u64) -> (r: Option<PhysAddr>)
        ensures
            r is Some <==> self@ + rhs <= PHYSICAL_ADDRESS_MAX,
            r matches Some(a) ==> a@ == self@ + rhs,
    {
        match self.as_u64().checked_add(rhs) {
            Some(val) => PhysAddr::try_new(val),
            None => None,
        }
    }
}

impl Address for PhysAddr {
    open spec fn spec_valid(v: u64) -> bool {
        valid_phys(v)
    }

    open spec fn spec_canonical(v: u64) -> u64 {
        canonical_phys(v)
    }

    open spec fn spec_u64(&self) -> u64 {
        self@
    }

    fn as_u64(&self) -> (r: u64) {
        PhysAddr::as_u64(self)
    }

    fn try_new(val: u64) -> (r: Option<Self>) {
        PhysAddr::try_new(val)
    }

    fn new(val: u64) -> (r: Self) {
        PhysAddr::new(val)
    }

    fn new_truncate(val: u64) -> (r: Self) {
        PhysAddr::new_truncate(val)
    }

    proof fn lemma_align_down_valid(v: u64, s: u64) {
    }

    fn checked_add(&self, rhs: u64) -> (r: Option<Self>) {
        PhysAddr::checked_add(self, rhs)
    }
}

/// A virtual address: a canonical 48-bit address, sign-extended from bit 47.
#[derive(Clone, Copy, PartialEq, Eq, PartialOrd, Ord, Hash, Debug)]
pub struct VirtAddr(u64);

impl VirtAddr {
    #[verifier::type_invariant]
    spec fn inv(self) -> bool {
        valid_virt(self.0)
    }

    /// The raw value of the address.
    pub closed spec fn view(self) -> u64 {
        self.0
    }

    /// Creates a new virtual address from `addr`, which must be canonical.
    pub fn new(addr: u64) -> (r: VirtAddr)
        requires
            valid_virt(addr),
        ensures
            r@ == addr,
    {
        VirtAddr(addr)
    }

    /// Creates a virtual address from `addr`, or `None` when `addr` is not canonical.
    pub fn try_new(addr: u64) -> (r: Option<VirtAddr>)
        ensures
            r is Some <==> valid_virt(addr),
            r matches Some(a) ==> a@ == addr,
    {
        if is_valid_virt(addr) {
            Some(VirtAddr(addr))
        } else {
            None
        }
    }

    /// Creates a virtual address from `addr`, sign-extending bit 47 into the upper bits.
    pub fn new_truncate(addr: u64) -> (r: VirtAddr)
        ensures
            r@ == canonical_virt(addr),
    {
        VirtAddr(canonicalize_virt(addr))
    }

    /// Returns the raw value of the virtual address.
    pub fn as_u64(&self) -> (r: u64)
        ensures
            r == self@,
            valid_virt(r),
    {
        proof {
            use_type_invariant(self);
        }
        self.0
    }

    /// Returns the raw value of the virtual address as a `usize`.
    pub fn as_usize(&self) -> (r: usize)
        ensures
            r == self@ as usize,
    {
        self.0 as usize
    }

    /// Converts this virtual address to a physical address with the same low 52 bits.
    pub fn as_phys_addr(&self) -> (r: PhysAddr)
        ensures
            r@ == canonical_phys(self@),
    {
        PhysAddr::new_truncate(self.0)
    }

    /// Adds `offset` to this address, returning `None` if the sum overflows or exceeds
    /// the maximum virtual address of the lower half.
    pub fn add_checked(&self, offset: u64) -> (r: Option<VirtAddr>)
        ensures
            r is Some <==> self@ + offset <= VIRTUAL_ADDRESS_MAX,
            r matches Some(a) ==> a@ == canonical_virt((self@ + offset) as u64),
    {
        let res = match self.as_u64().checked_add(offset) {
            Some(val) => val,
            None => return None,
        };
        if res > VIRTUAL_ADDRESS_MAX {
            None
        } else {
            Some(VirtAddr::new_truncate(res))
        }
    }

    /// Adds `rhs`, returning `None` when the sum overflows or is not a canonical address.
    pub fn checked_add(&self, rhs: u64) -> (r: Option<VirtAddr>)
        ensures
            r is Some <==> (self@ + rhs <= u64::MAX && valid_virt((self@ + rhs) as u64)),
            r matches Some(a) ==> a@ == self@ + rhs,
    {
        match self.as_u64().checked_add(rhs) {
            Some(val) => VirtAddr::try_new(val),
            None => None,
        }
    }

    /// The start of the higher half of the virtual address space.
    pub fn higher_half_start() -> (r: VirtAddr)
        ensures
            r@ == VIRT_HIGH_BITS | VIRT_SIGN_BIT,
    {
        proof {
            lemma_canonical_virt(VIRT_SIGN_BIT);
        }
        VirtAddr::new_truncate(VIRT_SIGN_BIT)
    }
}

impl Address for VirtAddr {
    open spec fn spec_valid(v: u64) -> bool {
        valid_virt(v)
    }

    open spec fn spec_canonical(v: u64) -> u64 {
        canonical_virt(v)
    }

    open spec fn spec_u64(&self) -> u64 {
        self@
    }

    fn as_u64(&self) -> (r: u64) {
        VirtAddr::as_u64(self)
    }

    fn try_new(val: u64) -> (r: Option<Self>) {
        VirtAddr::try_new(val)
    }

    fn new(val: u64) -> (r: Self) {
        VirtAddr::new(val)
    }

    fn new_truncate(val: u64) -> (r: Self) {
        VirtAddr::new_truncate(val)
    }

    proof fn lemma_align_down_valid(v: u64, s: u64) {
        crate::arch::lemma_shift_constants();
        if v >= 0xFFFF_8000_0000_0000u64 {
            let c: int = 0xFFFF_8000_0000_0000;
            assert(c % (s as int) == 0);
            vstd::arithmetic::div_mod::lemma_fundamental_div_mod(v as int, s as int);
            vstd::arithmetic::div_mod::lemma_fundamental_div_mod(c, s as int);
            let vi = v as int;
            let si = s as int;
            let q = vi / si;
            let r = vi % si;
            let qc = c / si;
            assert(qc <= q) by (nonlinear_arith)
                requires
                    c == si * qc,
                    vi == si * q + r,
                    0 <= r < si,
                    c <= vi,
                    si > 0,
            ;
            assert(si * qc <= si * q) by (nonlinear_arith)
                requires
                    qc <= q,
                    si > 0,
            ;
        }
    }

    fn checked_add(&self, rhs: u64) -> (r: Option<Self>) {
        VirtAddr::checked_add(self, rhs)
    }
}

} // verus!
