//! Bit-level facts about `u64` words and the masks the bitmaps are built from.
use vstd::prelude::*;

verus! {

/// Whether bit `j` of `x` is set.
pub open spec fn bit_at(x: u64, j: u64) -> bool {
    (x >> j) & 1u64 == 1u64
}

/// `m` has exactly the bits `lo <= j < hi` (of the 64) set.
pub open spec fn is_mask_of(m: u64, lo: int, hi: int) -> bool {
    forall|j: u64| j < 64 ==> (#[trigger] bit_at(m, j) <==> (lo <= j && j < hi))
}

/// The mask of the `count` lowest bits, saturating at 64 bits.
pub open spec fn run_mask_spec(count: u64) -> u64 {
    if count == 0 {
        0
    } else if count >= 64 {
        u64::MAX
    } else {
        ((1u64 << count) - 1) as u64
    }
}

/// No bit of zero is set, and every bit of `u64::MAX` is.
pub proof fn lemma_zero_and_full()
    by (bit_vector)
    ensures
        forall|j: u64| j < 64 ==> !#[trigger] bit_at(0u64, j),
        forall|j: u64| j < 64 ==> #[trigger] bit_at(u64::MAX, j),
{
}

/// The mask of the `count` lowest bits has exactly those bits set.
pub proof fn lemma_run_mask(count: u64)
    ensures
        is_mask_of(run_mask_spec(count), 0, count as int),
{
    if count == 0 || count >= 64 {
        lemma_zero_and_full();
    } else {
        assert(forall|j: u64|
            j < 64 ==> (#[trigger] bit_at(((1u64 << count) - 1) as u64, j) <==> j < count)) by (bit_vector)
            requires
                0 < count < 64,
        ;
    }
}

/// Shifting the mask of the `count` lowest bits left by `s` gives the mask of `s..s+count`.
pub proof fn lemma_shifted_run_mask(count: u64, s: u64)
    requires
        s < 64,
    ensures
        is_mask_of(run_mask_spec(count) << s, s as int, s + count),
{
    let m = run_mask_spec(count);
    if count == 0 {
        assert(forall|j: u64| j < 64 ==> !#[trigger] bit_at(0u64 << s, j)) by (bit_vector);
    } else if count >= 64 {
        assert(forall|j: u64| j < 64 ==> (#[trigger] bit_at(u64::MAX << s, j) <==> s <= j)) by (bit_vector)
            requires
                s < 64,
        ;
    } else {
        assert(forall|j: u64|
            j < 64 ==> (#[trigger] bit_at((((1u64 << count) - 1) as u64) << s, j) <==> (s <= j && j - s
                < count))) by (bit_vector)
            requires
                0 < count < 64,
                s < 64,
        ;
    }
}

/// The bits of `a | b`, `a & !b` and `a & b` in terms of the bits of `a` and `b`.
pub proof fn lemma_bit_ops(a: u64, b: u64)
    by (bit_vector)
    ensures
        forall|j: u64| j < 64 ==> (#[trigger] bit_at(a | b, j) <==> bit_at(a, j) || bit_at(b, j)),
        forall|j: u64|
            j < 64 ==> (#[trigger] bit_at(a & !b, j) <==> bit_at(a, j) && !bit_at(b, j)),
        forall|j: u64| j < 64 ==> (#[trigger] bit_at(a & b, j) <==> bit_at(a, j) && bit_at(b, j)),
        forall|j: u64| j < 64 ==> (#[trigger] bit_at(!a, j) <==> !bit_at(a, j)),
{
}

/// A word is zero exactly when none of its 64 bits is set.
pub proof fn lemma_zero_bits(a: u64)
    ensures
        a == 0 <==> forall|j: u64| j < 64 ==> !#[trigger] bit_at(a, j),
{
    assert(a == 0 ==> forall|j: u64| j < 64 ==> !bit_at(a, j)) by (bit_vector);
    if a != 0 {
        let j = crate::bits::lowest_set_bit(a);
    }
}

/// The lowest set bit of a non-zero word.
pub proof fn lowest_set_bit(a: u64) -> (j: u64)
    requires
        a != 0,
    ensures
        j < 64,
        bit_at(a, j),
{
    vstd::std_specs::bits::axiom_u64_trailing_zeros(a);
    vstd::std_specs::bits::u64_trailing_zeros(a) as u64
}

/// Two words with the same 64 bits are equal.
pub proof fn lemma_bits_ext(a: u64, b: u64)
    requires
        forall|j: u64| j < 64 ==> (bit_at(a, j) <==> bit_at(b, j)),
    ensures
        a == b,
{
    assert((forall|j: u64| j < 64 ==> (#[trigger] bit_at(a ^ b, j) <==> bit_at(a, j) != bit_at(b, j)))
        && (a ^ b == 0 ==> a == b)) by (bit_vector);
    assert forall|j: u64| j < 64 implies !#[trigger] bit_at(a ^ b, j) by {
        assert(bit_at(a ^ b, j) <==> bit_at(a, j) != bit_at(b, j));
    }
    lemma_zero_bits(a ^ b);
}

/// The bits of `x >> s` are the bits of `x` from `s` on.
pub proof fn lemma_shr_bits(x: u64, s: u64)
    requires
        s < 64,
    ensures
        forall|j: u64|
            j < 64 ==> (#[trigger] bit_at(x >> s, j) <==> (s + j < 64 && bit_at(x, (s + j) as u64))),
{
    assert forall|j: u64| j < 64 implies (#[trigger] bit_at(x >> s, j) <==> (s + j < 64 && bit_at(
        x,
        (s + j) as u64,
    ))) by {
        assert(s < 64 && j < 64 ==> ((bit_at(x >> s, j) <==> (s + j < 64 && bit_at(
            x,
            (s + j) as u64,
        ))))) by (bit_vector);
    }
}

/// Shifting twice is shifting by the sum.
pub proof fn lemma_shr_shr(x: u64, a: u64, b: u64)
    requires
        a + b < 64,
    ensures
        (x >> a) >> b == x >> ((a + b) as u64),
{
    lemma_shr_bits(x, a);
    lemma_shr_bits(x >> a, b);
    lemma_shr_bits(x, (a + b) as u64);
    assert forall|j: u64| j < 64 implies (bit_at((x >> a) >> b, j) <==> bit_at(
        x >> ((a + b) as u64),
        j,
    )) by {
        assert(bit_at((x >> a) >> b, j) <==> (b + j < 64 && bit_at(x >> a, (b + j) as u64)));
        if b + j < 64 {
            assert(bit_at(x >> a, (b + j) as u64) <==> (a + b + j < 64 && bit_at(
                x,
                (a + (b + j)) as u64,
            )));
        }
    }
    lemma_bits_ext((x >> a) >> b, x >> ((a + b) as u64));
}

/// The bits of `x << s` are the bits of `x` moved up by `s`.
pub proof fn lemma_shl_bits(x: u64, s: u64)
    requires
        s < 64,
    ensures
        forall|j: u64|
            j < 64 ==> (#[trigger] bit_at(x << s, j) <==> (s <= j && bit_at(x, (j - s) as u64))),
{
    assert forall|j: u64| j < 64 implies (#[trigger] bit_at(x << s, j) <==> (s <= j && bit_at(
        x,
        (j - s) as u64,
    ))) by {
        assert(s < 64 && j < 64 ==> ((bit_at(x << s, j) <==> (s <= j && bit_at(
            x,
            (j - s) as u64,
        ))))) by (bit_vector);
    }
}

/// Creates a bitmask for a run of `count` bits starting from the least significant bit,
/// saturating at `u64::MAX` when `count` is 64 or more.
pub fn bit_run_mask(count: u64) -> (r: u64)
    ensures
        r == run_mask_spec(count),
        is_mask_of(r, 0, count as int),
{
    proof {
        lemma_run_mask(count);
    }
    if count == 0 {
        0
    } else if count >= 64 {
        u64::MAX
    } else {
        assert(1u64 << count >= 1) by (bit_vector)
            requires
                count < 64,
        ;
        (1u64 << count) - 1
    }
}

/// Creates a bitmask for the `size` bits starting at `bit_offset` of one word.
///
/// Returns `Ok(mask)` when the range fits the word, and otherwise `Err((mask, remaining))`,
/// where `mask` holds the bits from `bit_offset` to the end of the word and `remaining`
/// counts the bits that did not fit.
pub fn entry_mask(bit_offset: u8, size: u64) -> (r: Result<u64, (u64, u64)>)
    requires
        bit_offset < 64,
        bit_offset + size <= u64::MAX,
    ensures
        size == 0 ==> r == Ok::<u64, (u64, u64)>(0),
        r is Ok <==> bit_offset + size <= 64,
        r matches Ok(m) ==> is_mask_of(m, bit_offset as int, bit_offset + size),
        r matches Err((m, rem)) ==> is_mask_of(m, bit_offset as int, 64) && rem == bit_offset
            + size - 64,
{
    if size == 0 {
        proof {
            lemma_run_mask(0);
        }
        return Ok(0);
    }
    let off = bit_offset as u64;
    if off + size > 64 {
        let valid_bits = 64 - off;
        let mask = bit_run_mask(valid_bits) << off;
        proof {
            lemma_shifted_run_mask(valid_bits, off);
        }
        return Err((mask, size - valid_bits));
    }
    proof {
        lemma_shifted_run_mask(size, off);
    }
    Ok(bit_run_mask(size) << off)
}

} // verus!
