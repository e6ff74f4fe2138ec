//! Discount parameters and the time-dependent discount factors built from
//! them.

use vstd::prelude::*;
use crate::fixed::{
    fraction_of, from_count, fx_clamp, fx_div, in_range, quotient_of, scaled, LIMIT, ONE,
};
use crate::power::{
    fx_pow, lemma_power_monotone, lemma_power_one, lemma_power_sign, lemma_power_zero, power_of,
};

verus! {

/// The exponents of the three discounts of discounted regret minimization.
///
/// The discount factor at iteration `t` for an exponent `exp` is
/// `t^exp / (t^exp + 1)`.
#[derive(Debug, Clone, Copy, PartialEq, Eq, Structural)]
pub struct DiscountParams {
    /// Exponent of the discount of positive regrets.
    pub alpha: i128,
    /// Exponent of the discount of negative regrets.
    pub beta: i128,
    /// Exponent of the discount of the average strategy.
    pub gamma: i128,
}

/// `t^exp / (t^exp + 1)` for a whole number `t`.
pub open spec fn discount_of(t: int, exp: int) -> int {
    let x = power_of(scaled(ONE as int, t), exp);
    quotient_of(x, x + ONE)
}

/// `(a / b)^exp` for whole numbers `a` and `b`.
pub open spec fn decay_of(a: int, b: int, exp: int) -> int {
    power_of(fraction_of(a, b), exp)
}

/// The discount of regrets carried over into iteration `t`: that of
/// iteration `t - 1`, and 0 at the first iteration, which carries nothing.
pub open spec fn carried_discount_of(t: int, exp: int) -> int {
    if t > 1 {
        discount_of(t - 1, exp)
    } else {
        0
    }
}

/// The discount of the average strategy carried over into iteration `t`:
/// `((t - 1) / t)^exp`, and 0 at the first iteration.
pub open spec fn carried_decay_of(t: int, exp: int) -> int {
    if t > 1 {
        decay_of(t - 1, t, exp)
    } else {
        0
    }
}

impl DiscountParams {
    /// The parameters of linear discounting.
    pub open spec fn spec_lcfr() -> Self {
        DiscountParams { alpha: ONE, beta: ONE, gamma: ONE }
    }

    /// The recommended parameters.
    pub open spec fn spec_recommended() -> Self {
        DiscountParams { alpha: 0x1_8000_0000, beta: 0, gamma: 0x2_0000_0000 }
    }

    /// The parameters that are safe with regret-based pruning.
    pub open spec fn spec_pruning_safe() -> Self {
        DiscountParams { alpha: 0x1_8000_0000, beta: 0x8000_0000, gamma: 0x2_0000_0000 }
    }

    /// Linear discounting: all three exponents are 1.
    pub fn lcfr() -> (r: Self)
        ensures
            r == Self::spec_lcfr(),
    {
        Self { alpha: ONE, beta: ONE, gamma: ONE }
    }

    /// The recommended exponents: 1.5, 0 and 2.
    pub fn recommended() -> (r: Self)
        ensures
            r == Self::spec_recommended(),
    {
        Self { alpha: ONE + ONE / 2, beta: 0, gamma: 2 * ONE }
    }

    /// Exponents that are safe with regret-based pruning: 1.5, 0.5 and 2.
    pub fn pruning_safe() -> (r: Self)
        ensures
            r == Self::spec_pruning_safe(),
    {
        Self { alpha: ONE + ONE / 2, beta: ONE / 2, gamma: 2 * ONE }
    }

    /// Creates discount parameters from three exponents.
    pub fn new(alpha: i128, beta: i128, gamma: i128) -> (r: Self)
        ensures
            r == (DiscountParams { alpha, beta, gamma }),
    {
        Self { alpha, beta, gamma }
    }

    /// Computes the discount factor `t^exp / (t^exp + 1)`.
    pub fn discount_factor(t: usize, exp: i128) -> (d: i128)
        ensures
            d == discount_of(t as int, exp as int),
            0 <= d < ONE,
            exp == 0 ==> d == ONE / 2,
    {
        let x: i128 = fx_pow(from_count(t), exp);
        proof {
            lemma_discount_zero_exponent(t as int);
            lemma_power_sign(scaled(ONE as int, t as int), exp as int);
            lemma_ratio_bounds(x as int);
        }
        fx_div(x, x + ONE)
    }

    /// Computes the regret discount carried over into iteration `t`.
    pub fn carried_discount(t: usize, exp: i128) -> (d: i128)
        ensures
            d == carried_discount_of(t as int, exp as int),
            0 <= d < ONE,
    {
        if t > 1 {
            Self::discount_factor(t - 1, exp)
        } else {
            0
        }
    }

    /// Computes the strategy discount `(t / (t + 1))^exp`.
    pub fn decay(t: usize, exp: i128) -> (d: i128)
        ensures
            d == decay_of(t as int, t + 1, exp as int),
            in_range(d as int),
    {
        let n: i128 = (t as i128) * ONE;
        let b: i128 = (t as i128) + 1;
        let q: i128 = n / b;
        proof {
            assert(0 <= (n as int) / (b as int) <= n) by (nonlinear_arith)
                requires
                    b > 0,
                    n >= 0,
            ;
        }
        fx_pow(fx_clamp(q), exp)
    }

    /// Computes the strategy discount carried over into iteration `t`.
    pub fn carried_decay(t: usize, exp: i128) -> (d: i128)
        ensures
            d == carried_decay_of(t as int, exp as int),
            in_range(d as int),
    {
        if t > 1 {
            Self::decay(t - 1, exp)
        } else {
            0
        }
    }
}

/// `x / (x + 1)` lies in `[0, 1)` for an `x` that is not negative.
pub proof fn lemma_ratio_bounds(x: int)
    requires
        0 <= x <= LIMIT,
    ensures
        0 <= quotient_of(x, x + ONE) < ONE,
        quotient_of(x, x + ONE) == (x * ONE) / (x + ONE),
{
    assert(0 <= (x * ONE) / (x + ONE) < ONE) by (nonlinear_arith)
        requires
            0 <= x,
            ONE == 0x1_0000_0000,
    ;
}

/// `x / (x + 1)` grows with `x`.
pub proof fn lemma_ratio_monotone(x: int, x2: int)
    requires
        0 <= x <= x2 <= LIMIT,
    ensures
        quotient_of(x, x + ONE) <= quotient_of(x2, x2 + ONE),
{
    lemma_ratio_bounds(x);
    lemma_ratio_bounds(x2);
    let q = (x * ONE) / (x + ONE);
    let d = x + ONE;
    let d2 = x2 + ONE;
    vstd::arithmetic::div_mod::lemma_fundamental_div_mod(x * ONE, d);
    vstd::arithmetic::div_mod::lemma_mod_bound(x * ONE, d);
    assert(q * d2 <= x2 * ONE) by (nonlinear_arith)
        requires
            x * ONE == d * q + (x * ONE) % d,
            0 <= (x * ONE) % d,
            0 <= q < ONE,
            d == x + ONE,
            d2 == x2 + ONE,
            0 <= x <= x2,
    ;
    assert(q <= (x2 * ONE) / d2) by (nonlinear_arith)
        requires
            q * d2 <= x2 * ONE,
            d2 > 0,
    ;
}

/// With the exponent 0 the discount factor is one half at every
/// iteration.
pub proof fn lemma_discount_zero_exponent(t: int)
    ensures
        discount_of(t, 0) == ONE / 2,
{
    lemma_power_zero(scaled(ONE as int, t));
    assert((ONE * ONE) / (ONE + ONE) == ONE / 2) by (nonlinear_arith)
        requires
            ONE == 0x1_0000_0000,
    ;
}

/// For a fixed exponent that is not negative, the discount factor never
/// falls as the iteration number grows.
pub proof fn lemma_discount_monotone(t: int, t2: int, exp: int)
    requires
        0 <= t <= t2,
        exp >= 0,
    ensures
        discount_of(t, exp) <= discount_of(t2, exp),
{
    assert(ONE * t <= ONE * t2) by (nonlinear_arith)
        requires
            t <= t2,
            ONE == 0x1_0000_0000,
    ;
    lemma_power_monotone(scaled(ONE as int, t), scaled(ONE as int, t2), exp);
    lemma_power_sign(scaled(ONE as int, t2), exp);
    lemma_ratio_monotone(
        power_of(scaled(ONE as int, t), exp),
        power_of(scaled(ONE as int, t2), exp),
    );
}

/// With the exponent 1 the discount factor is `t / (t + 1)`, rounded down.
pub proof fn lemma_discount_linear(t: int)
    requires
        0 <= t,
        t * ONE <= LIMIT,
    ensures
        discount_of(t, ONE as int) == (t * ONE) / (t + 1),
{
    let x = scaled(ONE as int, t);
    assert(ONE * t == t * ONE) by (nonlinear_arith);
    lemma_power_one(x);
    lemma_ratio_bounds(x);
    assert(x + ONE == (t + 1) * ONE) by (nonlinear_arith)
        requires
            x == t * ONE,
    ;
    assert(x * ONE == (t * ONE) * ONE);
    vstd::arithmetic::div_mod::lemma_div_multiples_vanish_quotient(ONE as int, t * ONE, t + 1);
    assert(ONE * (t * ONE) == (t * ONE) * ONE) by (nonlinear_arith);
    assert(ONE * (t + 1) == (t + 1) * ONE) by (nonlinear_arith);
}

/// With the exponent 1 the discount factor grows strictly from one
/// iteration to the next, as long as `(t + 1) * (t + 2)` does not exceed
/// `2^32`: beyond that two neighbours may round to the same value.
pub proof fn lemma_discount_linear_strict(t: int)
    requires
        0 <= t,
        (t + 1) * (t + 2) <= ONE,
    ensures
        discount_of(t, ONE as int) < discount_of(t + 1, ONE as int),
{
    assert(t <= ONE && (t + 1) * ONE <= LIMIT) by (nonlinear_arith)
        requires
            0 <= t,
            (t + 1) * (t + 2) <= ONE,
            ONE == 0x1_0000_0000,
            LIMIT == 0x4000_0000_0000_0000_0000_0000,
    ;
    assert(t * ONE <= (t + 1) * ONE) by (nonlinear_arith)
        requires
            ONE == 0x1_0000_0000,
    ;
    lemma_discount_linear(t);
    lemma_discount_linear(t + 1);
    let q = (t * ONE) / (t + 1);
    vstd::arithmetic::div_mod::lemma_fundamental_div_mod(t * ONE, t + 1);
    vstd::arithmetic::div_mod::lemma_mod_bound(t * ONE, t + 1);
    assert((q + 1) * (t + 2) * (t + 1) <= ((t + 1) * ONE) * (t + 1)) by (nonlinear_arith)
        requires
            t * ONE == (t + 1) * q + (t * ONE) % (t + 1),
            0 <= (t * ONE) % (t + 1),
            (t + 1) * (t + 2) <= ONE,
            0 <= t,
    ;
    assert((q + 1) * (t + 2) <= (t + 1) * ONE) by (nonlinear_arith)
        requires
            (q + 1) * (t + 2) * (t + 1) <= ((t + 1) * ONE) * (t + 1),
            t + 1 > 0,
    ;
    assert(q + 1 <= ((t + 1) * ONE) / (t + 2)) by (nonlinear_arith)
        requires
            (q + 1) * (t + 2) <= (t + 1) * ONE,
            t + 2 > 0,
    ;
}

} // verus!
