//! Square roots and real powers of fixed-point values.
//!
//! A power `x^e` is built from the binary digits of `e`: the whole part by
//! repeated squaring of `x`, the fractional part by repeated square roots.
//! Every step rounds down and saturates.

use vstd::prelude::*;
use crate::fixed::{
    clamp, fx_clamp, fx_div, fx_mul, fx_positive, in_range, positive_part, product_of,
    quotient_of, LIMIT, ONE,
};

verus! {

/// `y` is the square root of the fixed-point value `x`, rounded down.
pub open spec fn is_root(x: int, y: int) -> bool {
    &&& 0 <= y
    &&& y * y <= x * ONE
    &&& x * ONE < (y + 1) * (y + 1)
}

/// The square root of the fixed-point value `x`, rounded down; of 0 for a
/// negative `x`.
pub open spec fn root_of(x: int) -> int {
    choose|y: int| is_root(positive_part(x), y)
}

/// `acc * b^n` for a whole number `n`, by repeated squaring of `b`.
pub open spec fn whole_power(acc: int, b: int, n: nat) -> int
    decreases n,
{
    if n == 0 {
        acc
    } else {
        whole_power(
            if n % 2 == 1 {
                product_of(acc, b)
            } else {
                acc
            },
            product_of(b, b),
            n / 2,
        )
    }
}

/// `acc * s^f` for a fraction `f` in `[0, 1)`, read to `bits` binary
/// digits, by repeated square roots of `s`.
pub open spec fn frac_power(acc: int, s: int, f: int, bits: nat) -> int
    decreases bits,
{
    if bits == 0 {
        acc
    } else if 2 * f >= ONE {
        frac_power(product_of(acc, root_of(s)), root_of(s), 2 * f - ONE, (bits - 1) as nat)
    } else {
        frac_power(acc, root_of(s), 2 * f, (bits - 1) as nat)
    }
}

/// `b^e` for a base `b >= 0` and an exponent `e >= 0`.
pub open spec fn nonneg_power(b: int, e: int) -> int {
    frac_power(whole_power(ONE as int, b, (e / (ONE as int)) as nat), b, e % (ONE as int), 32)
}

/// `x^e`: the base is clipped at zero, the exponent brought into range,
/// and a negative exponent gives the reciprocal of the positive power
/// (`LIMIT` where that power is zero).
pub open spec fn power_of(x: int, e: int) -> int {
    let b = positive_part(x);
    let c = clamp(e);
    if c >= 0 {
        nonneg_power(b, c)
    } else if nonneg_power(b, -c) == 0 {
        LIMIT as int
    } else {
        quotient_of(ONE as int, nonneg_power(b, -c))
    }
}

/// The square root, rounded down and saturating; 0 for a negative value.
pub fn fx_sqrt(x: i128) -> (r: i128)
    ensures
        r == root_of(x as int),
        is_root(positive_part(x as int), r as int),
        0 <= r <= LIMIT,
{
    let v: u128 = (fx_positive(x) * ONE) as u128;
    let mut lo: u128 = 0;
    let mut hi: u128 = 0x1_0000_0000_0000_0000;
    assert(0 * 0 <= v && v < 0x1_0000_0000_0000_0000 * 0x1_0000_0000_0000_0000) by {
        assert(v <= 0x4000_0000_0000_0000_0000_0000 * 0x1_0000_0000);
    }
    while hi - lo > 1
        invariant
            lo < hi <= 0x1_0000_0000_0000_0000,
            lo * lo <= v,
            v < hi * hi,
            v == positive_part(x as int) * ONE,
        decreases hi - lo,
    {
        let mid: u128 = lo + (hi - lo) / 2;
        assert(mid * mid < 0x1_0000_0000_0000_0000 * 0x1_0000_0000_0000_0000) by (nonlinear_arith)
            requires
                0 <= mid < 0x1_0000_0000_0000_0000,
        ;
        if mid * mid <= v {
            lo = mid;
        } else {
            hi = mid;
        }
    }
    proof {
        assert(hi == lo + 1);
        assert(is_root(positive_part(x as int), lo as int));
        let y = root_of(x as int);
        assert(is_root(positive_part(x as int), y));
        lemma_root_unique(positive_part(x as int), lo as int, y);
        assert(v <= 0x8000_0000_0000_0000 * 0x8000_0000_0000_0000) by {
            assert(v <= 0x4000_0000_0000_0000_0000_0000 * 0x1_0000_0000);
        }
        assert(lo <= 0x8000_0000_0000_0000) by (nonlinear_arith)
            requires
                lo * lo <= v,
                v <= 0x8000_0000_0000_0000 * 0x8000_0000_0000_0000,
                0 <= lo,
        ;
    }
    lo as i128
}

/// `b^e` for `b >= 0` and `e >= 0`.
fn fx_pow_nonneg(b: i128, e: i128) -> (r: i128)
    requires
        0 <= b <= LIMIT,
        0 <= e <= LIMIT,
    ensures
        r == nonneg_power(b as int, e as int),
        in_range(r as int),
{
    let mut acc: i128 = ONE;
    let mut base: i128 = b;
    let mut n: i128 = e / ONE;
    while n > 0
        invariant
            0 <= n,
            in_range(acc as int),
            in_range(base as int),
            whole_power(acc as int, base as int, n as nat) == whole_power(
                ONE as int,
                b as int,
                (e as int / (ONE as int)) as nat,
            ),
        decreases n,
    {
        if n % 2 == 1 {
            acc = fx_mul(acc, base);
        }
        base = fx_mul(base, base);
        n = n / 2;
    }
    let ghost whole = acc as int;
    let mut s: i128 = b;
    let mut f: i128 = e % ONE;
    let mut bits: u32 = 32;
    while bits > 0 && f > 0
        invariant
            0 <= f < ONE,
            in_range(acc as int),
            frac_power(acc as int, s as int, f as int, bits as nat) == frac_power(
                whole,
                b as int,
                e as int % (ONE as int),
                32,
            ),
        decreases bits,
    {
        s = fx_sqrt(s);
        f = 2 * f;
        if f >= ONE {
            acc = fx_mul(acc, s);
            f = f - ONE;
        }
        bits = bits - 1;
    }
    proof {
        if bits > 0 {
            lemma_frac_power_done(acc as int, s as int, bits as nat);
        }
    }
    acc
}

/// `x^e` on fixed-point values, rounded down at every step and saturating.
pub fn fx_pow(x: i128, e: i128) -> (r: i128)
    ensures
        r == power_of(x as int, e as int),
        in_range(r as int),
{
    let b: i128 = fx_positive(x);
    let c: i128 = fx_clamp(e);
    if c >= 0 {
        fx_pow_nonneg(b, c)
    } else {
        let p: i128 = fx_pow_nonneg(b, -c);
        if p <= 0 {
            proof {
                lemma_nonneg_power_sign(b as int, -c as int);
            }
            LIMIT
        } else {
            fx_div(ONE, p)
        }
    }
}

/// Some value between `lo` and `hi` is the rounded-down square root.
proof fn lemma_root_search(x: int, lo: int, hi: int)
    requires
        0 <= lo < hi,
        lo * lo <= x * ONE,
        x * ONE < hi * hi,
    ensures
        exists|y: int| is_root(x, y),
    decreases hi - lo,
{
    if hi == lo + 1 {
        assert(is_root(x, lo));
    } else {
        let mid = lo + 1;
        if mid * mid <= x * ONE {
            lemma_root_search(x, mid, hi);
        } else {
            assert(is_root(x, lo));
        }
    }
}

/// The rounded-down square root exists.
pub proof fn lemma_root_exists(x: int)
    ensures
        is_root(positive_part(x), root_of(x)),
        root_of(x) >= 0,
{
    let v = positive_part(x) * ONE;
    assert(v >= 0) by (nonlinear_arith)
        requires
            v == positive_part(x) * ONE,
            positive_part(x) >= 0,
            ONE == 0x1_0000_0000,
    ;
    assert(v < (v + 1) * (v + 1)) by (nonlinear_arith)
        requires
            v >= 0,
    ;
    lemma_root_search(positive_part(x), 0, v + 1);
}

/// At most one value is the rounded-down square root.
pub proof fn lemma_root_unique(x: int, y: int, z: int)
    requires
        is_root(x, y),
        is_root(x, z),
    ensures
        y == z,
{
    if y < z {
        assert((y + 1) * (y + 1) <= z * z) by (nonlinear_arith)
            requires
                0 <= y,
                y + 1 <= z,
        ;
    } else if z < y {
        assert((z + 1) * (z + 1) <= y * y) by (nonlinear_arith)
            requires
                0 <= z,
                z + 1 <= y,
        ;
    }
}

/// The square root grows with its argument.
pub proof fn lemma_root_monotone(x: int, x2: int)
    requires
        x <= x2,
    ensures
        0 <= root_of(x) <= root_of(x2),
{
    lemma_root_exists(x);
    lemma_root_exists(x2);
    let y = root_of(x);
    let y2 = root_of(x2);
    if y > y2 {
        assert((y2 + 1) * (y2 + 1) <= y * y) by (nonlinear_arith)
            requires
                0 <= y2,
                y2 + 1 <= y,
        ;
        assert(positive_part(x) * ONE <= positive_part(x2) * ONE) by (nonlinear_arith)
            requires
                positive_part(x) <= positive_part(x2),
                ONE == 0x1_0000_0000,
        ;
    }
}

/// Products of values that are not negative are not negative.
pub proof fn lemma_product_nonneg(a: int, b: int)
    requires
        a >= 0,
        b >= 0,
    ensures
        0 <= product_of(a, b) <= LIMIT,
{
    assert((a * b) / (ONE as int) >= 0) by (nonlinear_arith)
        requires
            a >= 0,
            b >= 0,
            ONE == 0x1_0000_0000,
    ;
}

/// The product grows with both factors, as long as none is negative.
pub proof fn lemma_product_monotone(a: int, b: int, a2: int, b2: int)
    requires
        0 <= a <= a2,
        0 <= b <= b2,
    ensures
        product_of(a, b) <= product_of(a2, b2),
{
    assert(a * b <= a2 * b2) by (nonlinear_arith)
        requires
            0 <= a <= a2,
            0 <= b <= b2,
    ;
    assert((a * b) / (ONE as int) <= (a2 * b2) / (ONE as int)) by (nonlinear_arith)
        requires
            a * b <= a2 * b2,
            ONE == 0x1_0000_0000,
    ;
}

/// With no fractional digit left, the remaining roots change nothing.
proof fn lemma_frac_power_done(acc: int, s: int, bits: nat)
    ensures
        frac_power(acc, s, 0, bits) == acc,
    decreases bits,
{
    if bits > 0 {
        lemma_frac_power_done(acc, root_of(s), (bits - 1) as nat);
    }
}

proof fn lemma_whole_power_sign(acc: int, b: int, n: nat)
    requires
        acc >= 0,
        b >= 0,
    ensures
        whole_power(acc, b, n) >= 0,
    decreases n,
{
    if n > 0 {
        lemma_product_nonneg(acc, b);
        lemma_product_nonneg(b, b);
        lemma_whole_power_sign(
            if n % 2 == 1 {
                product_of(acc, b)
            } else {
                acc
            },
            product_of(b, b),
            n / 2,
        );
    }
}

proof fn lemma_frac_power_sign(acc: int, s: int, f: int, bits: nat)
    requires
        acc >= 0,
    ensures
        frac_power(acc, s, f, bits) >= 0,
    decreases bits,
{
    if bits > 0 {
        lemma_root_exists(s);
        lemma_product_nonneg(acc, root_of(s));
        if 2 * f >= ONE {
            lemma_frac_power_sign(
                product_of(acc, root_of(s)),
                root_of(s),
                2 * f - ONE,
                (bits - 1) as nat,
            );
        } else {
            lemma_frac_power_sign(acc, root_of(s), 2 * f, (bits - 1) as nat);
        }
    }
}

/// A power of a base that is not negative is not negative.
pub proof fn lemma_nonneg_power_sign(b: int, e: int)
    requires
        b >= 0,
        e >= 0,
    ensures
        nonneg_power(b, e) >= 0,
{
    lemma_whole_power_sign(ONE as int, b, (e / (ONE as int)) as nat);
    lemma_frac_power_sign(
        whole_power(ONE as int, b, (e / (ONE as int)) as nat),
        b,
        e % (ONE as int),
        32,
    );
}

proof fn lemma_whole_power_range(acc: int, b: int, n: nat)
    requires
        in_range(acc),
    ensures
        in_range(whole_power(acc, b, n)),
    decreases n,
{
    if n > 0 {
        lemma_whole_power_range(
            if n % 2 == 1 {
                product_of(acc, b)
            } else {
                acc
            },
            product_of(b, b),
            n / 2,
        );
    }
}

proof fn lemma_frac_power_range(acc: int, s: int, f: int, bits: nat)
    requires
        in_range(acc),
    ensures
        in_range(frac_power(acc, s, f, bits)),
    decreases bits,
{
    if bits > 0 {
        if 2 * f >= ONE {
            lemma_frac_power_range(
                product_of(acc, root_of(s)),
                root_of(s),
                2 * f - ONE,
                (bits - 1) as nat,
            );
        } else {
            lemma_frac_power_range(acc, root_of(s), 2 * f, (bits - 1) as nat);
        }
    }
}

/// A power lies in the saturation range.
pub proof fn lemma_nonneg_power_range(b: int, e: int)
    ensures
        in_range(nonneg_power(b, e)),
{
    lemma_whole_power_range(ONE as int, b, (e / (ONE as int)) as nat);
    lemma_frac_power_range(
        whole_power(ONE as int, b, (e / (ONE as int)) as nat),
        b,
        e % (ONE as int),
        32,
    );
}

/// A power is never negative.
pub proof fn lemma_power_sign(x: int, e: int)
    ensures
        0 <= power_of(x, e) <= LIMIT,
{
    let b = positive_part(x);
    let c = clamp(e);
    if c >= 0 {
        lemma_nonneg_power_sign(b, c);
        lemma_nonneg_power_range(b, c);
    } else {
        let p = nonneg_power(b, -c);
        lemma_nonneg_power_sign(b, -c);
        if p != 0 {
            assert((ONE * ONE) / p >= 0) by (nonlinear_arith)
                requires
                    p > 0,
                    ONE == 0x1_0000_0000,
            ;
        }
    }
}

proof fn lemma_whole_power_monotone(acc: int, b: int, acc2: int, b2: int, n: nat)
    requires
        0 <= acc <= acc2,
        0 <= b <= b2,
    ensures
        0 <= whole_power(acc, b, n) <= whole_power(acc2, b2, n),
    decreases n,
{
    if n > 0 {
        lemma_product_nonneg(acc, b);
        lemma_product_nonneg(b, b);
        lemma_product_monotone(acc, b, acc2, b2);
        lemma_product_monotone(b, b, b2, b2);
        lemma_whole_power_monotone(
            if n % 2 == 1 {
                product_of(acc, b)
            } else {
                acc
            },
            product_of(b, b),
            if n % 2 == 1 {
                product_of(acc2, b2)
            } else {
                acc2
            },
            product_of(b2, b2),
            n / 2,
        );
    }
}

proof fn lemma_frac_power_monotone(acc: int, s: int, acc2: int, s2: int, f: int, bits: nat)
    requires
        0 <= acc <= acc2,
        s <= s2,
    ensures
        0 <= frac_power(acc, s, f, bits) <= frac_power(acc2, s2, f, bits),
    decreases bits,
{
    if bits > 0 {
        lemma_root_monotone(s, s2);
        lemma_product_nonneg(acc, root_of(s));
        lemma_product_monotone(acc, root_of(s), acc2, root_of(s2));
        if 2 * f >= ONE {
            lemma_frac_power_monotone(
                product_of(acc, root_of(s)),
                root_of(s),
                product_of(acc2, root_of(s2)),
                root_of(s2),
                2 * f - ONE,
                (bits - 1) as nat,
            );
        } else {
            lemma_frac_power_monotone(
                acc,
                root_of(s),
                acc2,
                root_of(s2),
                2 * f,
                (bits - 1) as nat,
            );
        }
    }
}

/// A power with an exponent that is not negative grows with its base.
pub proof fn lemma_power_monotone(x: int, x2: int, e: int)
    requires
        x <= x2,
        e >= 0,
    ensures
        0 <= power_of(x, e) <= power_of(x2, e),
{
    let b = positive_part(x);
    let b2 = positive_part(x2);
    let c = clamp(e);
    let n = (c / (ONE as int)) as nat;
    lemma_whole_power_monotone(ONE as int, b, ONE as int, b2, n);
    lemma_frac_power_monotone(
        whole_power(ONE as int, b, n),
        b,
        whole_power(ONE as int, b2, n),
        b2,
        c % (ONE as int),
        32,
    );
}

/// Any base to the power 0 is 1.
pub proof fn lemma_power_zero(x: int)
    ensures
        power_of(x, 0) == ONE,
{
    lemma_frac_power_done(ONE as int, positive_part(x), 32);
}

/// A base in range to the power 1 is the base, clipped at zero.
pub proof fn lemma_power_one(x: int)
    ensures
        power_of(x, ONE as int) == positive_part(x),
{
    let b = positive_part(x);
    assert(whole_power(ONE as int, b, 1) == whole_power(product_of(ONE as int, b), product_of(b, b), 0))
        by {
        reveal_with_fuel(whole_power, 2);
    }
    assert((ONE * b) / (ONE as int) == b) by (nonlinear_arith)
        requires
            ONE == 0x1_0000_0000,
    ;
    lemma_frac_power_done(b, b, 32);
}

/// A base to the power 2 is its product with itself.
pub proof fn lemma_power_two(x: int)
    ensures
        power_of(x, 2 * ONE) == product_of(positive_part(x), positive_part(x)),
{
    let b = positive_part(x);
    let b2 = product_of(b, b);
    assert(whole_power(ONE as int, b, 2) == product_of(ONE as int, b2)) by {
        reveal_with_fuel(whole_power, 3);
    }
    assert((ONE * b2) / (ONE as int) == b2) by (nonlinear_arith)
        requires
            ONE == 0x1_0000_0000,
    ;
    lemma_frac_power_done(b2, b, 32);
}

/// A base to the power one half is its square root.
pub proof fn lemma_power_half(x: int)
    ensures
        power_of(x, ONE / 2) == root_of(x),
{
    let b = positive_part(x);
    let r = root_of(b);
    lemma_root_exists(b);
    assert(root_of(b) == root_of(x));
    assert(r * r <= b * ONE);
    assert(r <= LIMIT) by (nonlinear_arith)
        requires
            r >= 0,
            r * r <= b * ONE,
            0 <= b <= LIMIT,
            ONE == 0x1_0000_0000,
            LIMIT == 0x4000_0000_0000_0000_0000_0000,
    ;
    assert((ONE * r) / (ONE as int) == r) by (nonlinear_arith)
        requires
            ONE == 0x1_0000_0000,
    ;
    assert(frac_power(ONE as int, b, ONE / 2, 32) == frac_power(
        product_of(ONE as int, r),
        r,
        0,
        31,
    ));
    lemma_frac_power_done(r, r, 31);
}

} // verus!
