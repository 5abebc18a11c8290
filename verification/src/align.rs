//! Page arithmetic on 64-bit offsets.

use vstd::arithmetic::power2;
use vstd::prelude::*;

verus! {

/// Page size that is taken where the host reports none.
pub const DEFAULT_PAGE_SIZE: u64 = 4096;

/// Largest power of two that fits in 64 bits.
pub const MAX_ALIGNMENT: u64 = 0x8000_0000_0000_0000;

/// Whether `n` is a power of two.
pub open spec fn is_power_of_two(n: u64) -> bool {
    exists|k: nat| power2::pow2(k) == n
}

/// `value` with the bits below `alignment` cleared.
pub open spec fn aligned_down(value: u64, alignment: u64) -> u64 {
    value & !((alignment - 1) as u64)
}

/// The page size to align with, where the host reports this one.
pub open spec fn page_size_of(reported: i64) -> u64 {
    if reported < 0 {
        DEFAULT_PAGE_SIZE
    } else {
        reported as u64
    }
}

/// A page size that the host knows is taken as it is, however large; 4096 is taken where it knows
/// none.
pub proof fn law_reported_page_size_is_taken(reported: i64)
    ensures
        0 <= reported ==> page_size_of(reported) as int == reported as int,
        reported < 0 ==> page_size_of(reported) == 4096,
{
}

/// Turns the page size that the host reports into one to align with. The host reports a negative
/// number where it knows none.
pub fn host_page_size(reported: i64) -> (size: u64)
    ensures
        size == page_size_of(reported),
        reported >= 0 ==> size == reported,
        reported < 0 ==> size == DEFAULT_PAGE_SIZE,
{
    if reported >= 0 {
        reported as u64
    } else {
        DEFAULT_PAGE_SIZE
    }
}

/// Clearing the low bits of `value` gives the greatest multiple of `alignment` that is not above
/// `value`, where `alignment` is a power of two.
pub proof fn law_aligned_down(value: u64, alignment: u64)
    requires
        is_power_of_two(alignment),
    ensures
        1 <= alignment <= MAX_ALIGNMENT,
        aligned_down(value, alignment) % alignment == 0,
        aligned_down(value, alignment) <= value < aligned_down(value, alignment) + alignment,
{
    let k = choose|k: nat| power2::pow2(k) == alignment;
    power2::lemma_pow2_pos(k);
    assert(k < 64) by {
        power2::lemma2_to64_rest();
        if k > 64 {
            power2::lemma_pow2_strictly_increases(64, k);
        }
    }
    assert(alignment <= MAX_ALIGNMENT) by {
        power2::lemma2_to64_rest();
        if k < 63 {
            power2::lemma_pow2_strictly_increases(k, 63);
        }
    }
    let shift = k as u64;
    assert(1u64 << shift == alignment) by {
        vstd::bits::lemma_u64_pow2_no_overflow(k);
        vstd::bits::lemma_u64_shl_is_mul(1, shift);
    }
    assert(value & !((alignment - 1) as u64) == (value >> shift) << shift && (value >> shift)
        << shift <= value) by (bit_vector)
        requires
            shift < 64,
            1u64 << shift == alignment,
    ;
    let q = value as int / alignment as int;
    vstd::bits::lemma_u64_shr_is_div(value, shift);
    assert((value >> shift) == q);
    vstd::arithmetic::div_mod::lemma_fundamental_div_mod(value as int, alignment as int);
    assert(alignment * q == q * alignment) by (nonlinear_arith);
    vstd::bits::lemma_u64_shl_is_mul(value >> shift, shift);
    assert(aligned_down(value, alignment) == q * alignment);
    vstd::arithmetic::div_mod::lemma_mod_multiples_basic(q, alignment as int);
    vstd::arithmetic::div_mod::lemma_mod_bound(value as int, alignment as int);
}

/// Clears the bits of `value` below `alignment`: where `alignment` is a power of two, the result
/// is the greatest multiple of it that is not above `value`.
pub fn align_down(value: u64, alignment: u64) -> (aligned: u64)
    requires
        alignment >= 1,
    ensures
        aligned == aligned_down(value, alignment),
        is_power_of_two(alignment) ==> aligned % alignment == 0 && aligned <= value < aligned
            + alignment,
{
    proof {
        if is_power_of_two(alignment) {
            law_aligned_down(value, alignment);
        }
    }
    value & !(alignment - 1)
}

/// Rounds `value` up: where `alignment` is a power of two, the result is the least multiple of it
/// that is not below `value`.
pub fn align_up(value: u64, alignment: u64) -> (aligned: u64)
    requires
        alignment >= 1,
        value + alignment - 1 <= u64::MAX,
    ensures
        aligned == aligned_down((value + alignment - 1) as u64, alignment),
        is_power_of_two(alignment) ==> aligned % alignment == 0 && value <= aligned < value
            + alignment,
{
    align_down(value + (alignment - 1), alignment)
}

/// Aligning down, whatever the alignment, clears exactly the bits that one less than the alignment
/// has: the result has none of them, and together with those of `value` it is `value` again.
pub proof fn law_aligned_down_clears_bits(value: u64, alignment: u64)
    requires
        alignment >= 1,
    ensures
        aligned_down(value, alignment) & ((alignment - 1) as u64) == 0,
        aligned_down(value, alignment) | (value & ((alignment - 1) as u64)) == value,
{
    let mask = (alignment - 1) as u64;
    assert((value & !mask) & mask == 0) by (bit_vector);
    assert((value & !mask) | (value & mask) == value) by (bit_vector);
}

/// Aligning down to a power of two goes to the start of the page of `value`: two values are aligned
/// to the same address exactly where they lie in the same page.
pub proof fn law_aligned_down_is_start_of_page(value: u64, alignment: u64)
    requires
        is_power_of_two(alignment),
    ensures
        aligned_down(value, alignment) == value as int / alignment as int * alignment,
{
    law_aligned_down(value, alignment);
    let a = aligned_down(value, alignment) as int;
    let p = alignment as int;
    vstd::arithmetic::div_mod::lemma_fundamental_div_mod(a, p);
    vstd::arithmetic::div_mod::lemma_fundamental_div_mod_converse(value as int, p, a / p, value - a);
    assert(p * (a / p) == a / p * p) by (nonlinear_arith);
}

} // verus!
