//! Fixed-point scale constants, input limits, and small arithmetic
//! helpers shared by the forecasting and fusion modules.

use vstd::prelude::*;
use vstd::arithmetic::div_mod::lemma_multiply_divide_le;

verus! {

/// One whole unit in fixed-point micro-units: rates, weights, variances
/// and confidence values are all carried as multiples of 1/SCALE.
pub const SCALE: u64 = 1_000_000;

/// Largest accepted money amount, in cents.
pub const MAX_AMOUNT_CENTS: u64 = 100_000_000_000;

/// Largest accepted history length for one forecast call.
pub const MAX_HISTORY_LEN: usize = 100_000;

/// Largest accepted Unix timestamp, in seconds.
pub const MAX_TIMESTAMP: i64 = 100_000_000_000;

/// Largest accepted rate observation, in micro-units.
pub const MAX_RATE_MICRO: u64 = 1_000_000_000_000_000;

/// Largest accepted observation weight, in micro-units.
pub const MAX_WEIGHT_MICRO: u64 = 1_000_000_000_000;

/// Largest accepted observation list length for one fusion call.
pub const MAX_SOURCES_LEN: usize = 100_000;

/// The rounded-down square root of a non-negative value, as chosen by
/// the defining property `r * r <= v < (r + 1) * (r + 1)`.
pub closed spec fn sqrt_floor(v: int) -> int {
    choose|r: int| 0 <= r && #[trigger] (r * r) <= v && v < (r + 1) * (r + 1)
}

/// The defining property of `sqrt_floor` pins its value: any witness of
/// the property equals `sqrt_floor(v)`.
pub proof fn lemma_sqrt_floor_unique(v: int, r: int)
    requires
        0 <= r,
        r * r <= v,
        v < (r + 1) * (r + 1),
    ensures
        sqrt_floor(v) == r,
{
    let s = sqrt_floor(v);
    assert(0 <= s && s * s <= v && v < (s + 1) * (s + 1));
    assert(s == r) by (nonlinear_arith)
        requires
            0 <= r,
            r * r <= v,
            v < (r + 1) * (r + 1),
            0 <= s,
            s * s <= v,
            v < (s + 1) * (s + 1),
    ;
}

/// Rounded-down integer square root over the full `u128` range.
pub fn isqrt_u128(v: u128) -> (r: u64)
    ensures
        (r as int) * (r as int) <= v as int,
        (v as int) < (r as int + 1) * (r as int + 1),
        r as int == sqrt_floor(v as int),
{
    let mut lo: u128 = 0;
    let mut hi: u128 = 0x1_0000_0000_0000_0000;
    proof {
        assert((0x1_0000_0000_0000_0000 as int) * (0x1_0000_0000_0000_0000 as int)
            > u128::MAX as int) by (nonlinear_arith);
    }
    while hi - lo > 1
        invariant
            0 <= lo < hi <= 0x1_0000_0000_0000_0000,
            (lo as int) * (lo as int) <= v as int,
            (v as int) < (hi as int) * (hi as int),
        decreases hi - lo,
    {
        let mid: u128 = lo + (hi - lo) / 2;
        assert(lo < mid < hi);
        if mid <= u64::MAX as u128 {
            proof {
                assert((mid as int) * (mid as int) <= u128::MAX as int) by (nonlinear_arith)
                    requires mid <= u64::MAX as u128,
                ;
            }
            let sq: u128 = mid * mid;
            if sq <= v {
                lo = mid;
            } else {
                hi = mid;
            }
        } else {
            // mid == 2^64 is impossible inside the loop: mid < hi <= 2^64.
            proof {
                assert(false);
            }
        }
    }
    let r: u64 = lo as u64;
    proof {
        lemma_sqrt_floor_unique(v as int, r as int);
    }
    r
}

/// Bounding a quotient: if `num <= den * bound` then `num / den <= bound`.
pub proof fn lemma_div_le_bound(num: int, den: int, bound: int)
    requires
        0 < den,
        num <= den * bound,
    ensures
        num / den <= bound,
{
    lemma_multiply_divide_le(num, den, bound);
}

/// A quotient of non-negative values never exceeds the numerator.
pub proof fn lemma_div_le_num(num: int, den: int)
    requires
        0 <= num,
        0 < den,
    ensures
        0 <= num / den <= num,
{
    vstd::arithmetic::div_mod::lemma_div_nonincreasing(num, den);
    vstd::arithmetic::div_mod::lemma_div_pos_is_pos(num, den);
}

/// Multiplying both factors within their bounds bounds the product.
pub proof fn lemma_mul_le(a: int, b: int, x: int, y: int) by (nonlinear_arith)
    requires
        0 <= a <= x,
        0 <= b <= y,
    ensures
        0 <= a * b <= x * y,
{
}

} // verus!
