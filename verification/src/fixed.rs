//! Fixed-point arithmetic with 32 fractional bits.
//!
//! A real number `x` is held as the integer `x * 2^32`, rounded down. All
//! operations saturate at `±LIMIT`, so they are total: none can overflow.

use vstd::prelude::*;

verus! {

/// The raw value that stands for the real number 1.
pub const ONE: i128 = 0x1_0000_0000;

/// Largest magnitude a value can take: `2^94` raw units, the real `2^62`.
pub const LIMIT: i128 = 0x4000_0000_0000_0000_0000_0000;

/// Largest number of entries in a vector of values whose exact sum is
/// guaranteed to fit the machine word.
pub const MAX_LEN: usize = 0xFFFF_FFFF;

/// `x` lies in the saturation range.
pub open spec fn in_range(x: int) -> bool {
    -LIMIT <= x <= LIMIT
}

/// `x` brought into the saturation range.
pub open spec fn clamp(x: int) -> int {
    if x > LIMIT {
        LIMIT as int
    } else if x < -LIMIT {
        -LIMIT
    } else {
        x
    }
}

/// Saturating sum.
pub open spec fn sum_of(a: int, b: int) -> int {
    clamp(a + b)
}

/// Saturating difference.
pub open spec fn diff_of(a: int, b: int) -> int {
    clamp(a - b)
}

/// Saturating product of two fixed-point values, rounded down.
pub open spec fn product_of(a: int, b: int) -> int {
    clamp((a * b) / (ONE as int))
}

/// Saturating quotient of two fixed-point values, rounded down. The
/// numerator is brought into range first.
pub open spec fn quotient_of(a: int, b: int) -> int
    recommends
        b != 0,
{
    clamp((clamp(a) * ONE) / b)
}

/// The positive part of `x`, saturated: `max(0, x)`.
pub open spec fn positive_part(x: int) -> int {
    if x <= 0 {
        0
    } else {
        clamp(x)
    }
}

/// A value multiplied by a whole number, saturated.
pub open spec fn scaled(x: int, k: int) -> int {
    clamp(x * k)
}

/// The fraction `a / b` of two whole numbers, rounded down.
pub open spec fn fraction_of(a: int, b: int) -> int
    recommends
        b != 0,
{
    clamp((a * ONE) / b)
}

/// Brings a raw value into the saturation range.
pub fn fx_clamp(x: i128) -> (r: i128)
    ensures
        r == clamp(x as int),
        in_range(r as int),
{
    if x > LIMIT {
        LIMIT
    } else if x < -LIMIT {
        -LIMIT
    } else {
        x
    }
}

/// `a + b`, saturating.
pub fn fx_add(a: i128, b: i128) -> (r: i128)
    ensures
        r == sum_of(a as int, b as int),
        in_range(r as int),
{
    match a.checked_add(b) {
        Some(s) => fx_clamp(s),
        None => if a > 0 {
            LIMIT
        } else {
            -LIMIT
        },
    }
}

/// `a - b`, saturating.
pub fn fx_sub(a: i128, b: i128) -> (r: i128)
    ensures
        r == diff_of(a as int, b as int),
        in_range(r as int),
{
    match a.checked_sub(b) {
        Some(s) => fx_clamp(s),
        None => if b < 0 {
            LIMIT
        } else {
            -LIMIT
        },
    }
}

/// `a * b` as fixed-point values, rounded down and saturating.
pub fn fx_mul(a: i128, b: i128) -> (r: i128)
    ensures
        r == product_of(a as int, b as int),
        in_range(r as int),
{
    proof {
        lemma_huge_quotient(a as int * b as int);
    }
    match a.checked_mul(b) {
        Some(p) => {
            match p.checked_div_euclid(ONE) {
                Some(q) => fx_clamp(q),
                None => 0,
            }
        },
        None => {
            if (a > 0) == (b > 0) {
                proof {
                    assert(a as int * b as int >= 0) by (nonlinear_arith)
                        requires
                            (a > 0) == (b > 0),
                    ;
                }
                LIMIT
            } else {
                proof {
                    assert(a as int * b as int <= 0) by (nonlinear_arith)
                        requires
                            (a > 0) != (b > 0),
                    ;
                }
                -LIMIT
            }
        },
    }
}

/// `a / b` as fixed-point values, rounded down and saturating; `a` is
/// brought into range first.
pub fn fx_div(a: i128, b: i128) -> (r: i128)
    requires
        b > 0,
    ensures
        r == quotient_of(a as int, b as int),
        in_range(r as int),
{
    let n: i128 = fx_clamp(a) * ONE;
    proof {
        assert(i128::MIN <= (n as int) / (b as int) <= i128::MAX) by (nonlinear_arith)
            requires
                b > 0,
                i128::MIN <= n <= i128::MAX,
        ;
    }
    match n.checked_div_euclid(b) {
        Some(q) => fx_clamp(q),
        None => 0,
    }
}

/// `x * k` for a whole number `k`, saturating.
pub fn fx_scale(x: i128, k: usize) -> (r: i128)
    ensures
        r == scaled(x as int, k as int),
        in_range(r as int),
{
    match x.checked_mul(k as i128) {
        Some(p) => fx_clamp(p),
        None => {
            proof {
                assert(x > 0 ==> x as int * k as int >= 0) by (nonlinear_arith)
                    requires
                        k >= 0,
                ;
                assert(x <= 0 ==> x as int * k as int <= 0) by (nonlinear_arith)
                    requires
                        k >= 0,
                ;
            }
            if x > 0 {
                LIMIT
            } else {
                -LIMIT
            }
        },
    }
}

/// `max(0, x)`, saturating.
pub fn fx_positive(x: i128) -> (r: i128)
    ensures
        r == positive_part(x as int),
        0 <= r <= LIMIT,
{
    if x <= 0 {
        0
    } else {
        fx_clamp(x)
    }
}

/// The whole number `k` as a fixed-point value, saturating.
pub fn from_count(k: usize) -> (r: i128)
    ensures
        r == scaled(ONE as int, k as int),
        0 <= r <= LIMIT,
{
    fx_scale(ONE, k)
}

/// If `|p| >= 2^127` then `p / 2^32` is out of range, on the side of `p`.
proof fn lemma_huge_quotient(p: int)
    ensures
        p > i128::MAX ==> p / (ONE as int) > LIMIT,
        p < i128::MIN ==> p / (ONE as int) < -LIMIT,
{
    assert(p > i128::MAX ==> p / (ONE as int) > LIMIT) by (nonlinear_arith)
        requires
            ONE == 0x1_0000_0000,
            LIMIT == 0x4000_0000_0000_0000_0000_0000,
            i128::MAX == 0x7FFF_FFFF_FFFF_FFFF_FFFF_FFFF_FFFF_FFFF,
    ;
    assert(p < i128::MIN ==> p / (ONE as int) < -LIMIT) by (nonlinear_arith)
        requires
            ONE == 0x1_0000_0000,
            LIMIT == 0x4000_0000_0000_0000_0000_0000,
            i128::MIN == -0x8000_0000_0000_0000_0000_0000_0000_0000,
    ;
}

} // verus!
