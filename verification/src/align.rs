//! Power-of-two alignments and rounding of values to them.
use vstd::prelude::*;

verus! {

/// `a` is a power of two.
pub open spec fn is_pow2(a: u64) -> bool {
    exists|k: u64| k < 64 && a == #[trigger] (1u64 << k)
}

/// The smallest multiple of `a` that is at least `v`.
pub open spec fn align_up_spec(v: int, a: int) -> int {
    if v % a == 0 {
        v
    } else {
        v - v % a + a
    }
}

/// The largest multiple of `a` that is at most `v`.
pub open spec fn align_down_spec(v: int, a: int) -> int {
    v - v % a
}

/// Facts about rounding to a power of two by masking.
pub proof fn lemma_pow2_mask(v: u64, k: u64)
    requires
        k < 64,
    ensures
        v & !(((1u64 << k) - 1) as u64) == v - v % (1u64 << k),
        v & (((1u64 << k) - 1) as u64) == v % (1u64 << k),
        (1u64 << k) >= 1,
        (1u64 << k) <= 0x8000_0000_0000_0000u64,
{
    assert(k < 64 ==> (1u64 << k) <= 0x8000_0000_0000_0000u64) by (bit_vector);
    vstd::bits::lemma_u64_pow2_no_overflow(k as nat);
    vstd::bits::lemma_u64_shl_is_mul(1, k);
    vstd::bits::lemma_u64_low_bits_mask_is_mod(v, k as nat);
    let m = ((1u64 << k) - 1) as u64;
    assert(v & !m == v - (v & m) && v & m <= v) by (bit_vector);
}

/// Rounding up by subtracting the remainder of `v + a - 1` meets the rounding spec.
pub proof fn lemma_align_up_arith(v: int, a: int)
    requires
        a > 0,
        v >= 0,
    ensures
        (v + a - 1) - (v + a - 1) % a == align_up_spec(v, a),
        align_up_spec(v, a) % a == 0,
        v <= align_up_spec(v, a) < v + a,
{
    let q = v / a;
    let rr = v % a;
    vstd::arithmetic::div_mod::lemma_fundamental_div_mod(v, a);
    if rr == 0 {
        vstd::arithmetic::div_mod::lemma_fundamental_div_mod_converse(v + a - 1, a, q, a - 1);
    } else {
        assert((q + 1) * a == q * a + a) by (nonlinear_arith);
        vstd::arithmetic::div_mod::lemma_fundamental_div_mod_converse(
            v + a - 1,
            a,
            q + 1,
            rr - 1,
        );
        vstd::arithmetic::div_mod::lemma_fundamental_div_mod_converse(v - rr + a, a, q + 1, 0);
    }
}

/// Rounding down by subtracting the remainder gives a multiple.
pub proof fn lemma_align_down_arith(v: int, a: int)
    requires
        a > 0,
        v >= 0,
    ensures
        (v - v % a) % a == 0,
        0 <= v % a < a,
{
    let q = v / a;
    vstd::arithmetic::div_mod::lemma_fundamental_div_mod(v, a);
    vstd::arithmetic::div_mod::lemma_fundamental_div_mod_converse(v - v % a, a, q, 0);
}

/// A power of two up to 64 divides 64, and 64 divides every larger power of two.
pub proof fn lemma_pow2_and_64(k: u64)
    by (bit_vector)
    requires
        k < 64,
    ensures
        k <= 6 ==> 64u64 % (1u64 << k) == 0,
        k >= 6 ==> (1u64 << k) % 64 == 0,
        k <= 6 <==> (1u64 << k) <= 64,
{
}

/// A bit index built from an entry index that is a multiple of the entry skip of alignment
/// `1 << k`, and an in-entry offset aligned to it, is aligned to `1 << k`.
pub proof fn lemma_aligned_index(k: u64, k2: int, off: int)
    requires
        k < 64,
        k2 >= 0,
        0 <= off < 64,
        off % ((1u64 << k) as int) == 0,
    ensures
        ({
            let a = (1u64 << k) as int;
            let skip = if a / 64 > 1 {
                a / 64
            } else {
                1
            };
            (k2 * skip * 64 + off) % a == 0
        }),
{
    let a = (1u64 << k) as int;
    lemma_pow2_and_64(k);
    lemma_pow2_mask(0, k);
    if a <= 64 {
        assert(a / 64 <= 1);
        let q = 64int / a;
        vstd::arithmetic::div_mod::lemma_fundamental_div_mod(64, a);
        assert(k2 * 1 * 64 == (k2 * q) * a) by (nonlinear_arith)
            requires
                64 == a * q,
        ;
        vstd::arithmetic::div_mod::lemma_mod_multiples_basic(k2 * q, a);
        vstd::arithmetic::div_mod::lemma_add_mod_noop(k2 * 1 * 64, off, a);
    } else {
        vstd::arithmetic::div_mod::lemma_small_mod(off as nat, a as nat);
        assert(off == 0);
        let q = a / 64;
        vstd::arithmetic::div_mod::lemma_fundamental_div_mod(a, 64);
        if a / 64 > 1 {
            assert(k2 * q * 64 == k2 * a) by (nonlinear_arith)
                requires
                    a == 64 * q,
            ;
        } else {
            assert(a == 64 * q);
            assert(false);
        }
        vstd::arithmetic::div_mod::lemma_mod_multiples_basic(k2, a);
    }
}

/// A power of two that is a valid alignment.
#[derive(Clone, Copy, PartialEq, Eq, Debug)]
pub struct Alignment {
    log2: u64,
}

impl Alignment {
    #[verifier::type_invariant]
    spec fn inv(self) -> bool {
        self.log2 < 64
    }

    /// The alignment in bytes (or in whatever unit it counts).
    pub closed spec fn view(self) -> u64 {
        (1u64 << self.log2)
    }

    /// The exponent of the alignment.
    pub closed spec fn spec_log2(self) -> u64 {
        self.log2
    }

    /// Returns the alignment as a `u64`, which is always a power of two.
    pub fn as_u64(&self) -> (r: u64)
        ensures
            r == self@,
            is_pow2(r),
            r >= 1,
            r == 1u64 << self.spec_log2(),
            self.spec_log2() < 64,
    {
        proof {
            use_type_invariant(self);
            lemma_pow2_mask(0, self.log2);
        }
        1u64 << self.log2
    }

    /// Returns the alignment as a `usize`.
    pub fn as_usize(&self) -> (r: usize)
        ensures
            r == self@ as usize,
    {
        self.as_u64() as usize
    }

    /// Returns the base-two logarithm of the alignment.
    pub fn log2(&self) -> (r: u64)
        ensures
            r == self.spec_log2(),
            r < 64,
            self@ == 1u64 << r,
    {
        proof {
            use_type_invariant(self);
        }
        self.log2
    }

    /// Creates an alignment of `1 << log2`.
    pub fn from_log2(log2: u64) -> (r: Alignment)
        requires
            log2 < 64,
        ensures
            r@ == 1u64 << log2,
            r.spec_log2() == log2,
    {
        Alignment { log2 }
    }

    /// Creates an alignment from `align`, or `None` if `align` is not a power of two.
    pub fn new(align: usize) -> (r: Option<Alignment>)
        ensures
            r is Some <==> is_pow2(align as u64),
            r matches Some(a) ==> a@ == align as u64,
    {
        let x = align as u64;
        if x == 0 {
            proof {
                assert forall|k: u64| k < 64 implies (1u64 << k) != 0u64 by {
                    assert(k < 64 ==> (1u64 << k) != 0u64) by (bit_vector);
                }
            }
            return None;
        }
        if x & (x - 1) != 0 {
            proof {
                assert forall|k: u64| k < 64 implies x != #[trigger] (1u64 << k) by {
                    assert(k < 64 && x == (1u64 << k) ==> x & ((x - 1) as u64) == 0)
                        by (bit_vector);
                }
            }
            return None;
        }
        let t = x.trailing_zeros() as u64;
        proof {
            vstd::std_specs::bits::axiom_u64_trailing_zeros(x);
            assert(x != 0 && x & ((x - 1) as u64) == 0 && t < 64 && (x >> t) & 1 == 1 ==> x == (1u64
                << t)) by (bit_vector);
        }
        Some(Alignment { log2: t })
    }
}

/// Rounds `v` up to a multiple of the power of two `1 << k`.
pub fn align_up(v: u64, k: u64) -> (r: u64)
    requires
        k < 64,
        v + (1u64 << k) - 1 <= u64::MAX,
    ensures
        r == align_up_spec(v as int, (1u64 << k) as int),
        r % (1u64 << k) == 0,
        v <= r < v + (1u64 << k),
{
    proof {
        lemma_pow2_mask((v + (1u64 << k) - 1) as u64, k);
        lemma_align_up_arith(v as int, (1u64 << k) as int);
    }
    let a = 1u64 << k;
    (v + (a - 1)) & !(a - 1)
}

/// Rounds `v` down to a multiple of the power of two `1 << k`.
pub fn align_down(v: u64, k: u64) -> (r: u64)
    requires
        k < 64,
    ensures
        r == align_down_spec(v as int, (1u64 << k) as int),
        r % (1u64 << k) == 0,
        r <= v,
        v - r < (1u64 << k),
{
    proof {
        lemma_pow2_mask(v, k);
        lemma_align_down_arith(v as int, (1u64 << k) as int);
    }
    let a = 1u64 << k;
    v & !(a - 1)
}

} // verus!
