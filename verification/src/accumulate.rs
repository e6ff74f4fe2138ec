//! The entrywise steps that the update rules are made of: the
//! instantaneous regret, and the ways a vector of regrets or of strategy
//! weights takes in a new vector.
//!
//! Every step works over the common length of its two vectors and leaves
//! what lies beyond it as it was.

use vstd::prelude::*;
use crate::fixed::{
    diff_of, fx_add, fx_mul, fx_positive, fx_scale, fx_sub, positive_part, product_of, scaled,
    sum_of, LIMIT,
};
use crate::regret_minimizer::dot_of;

verus! {

/// Instantaneous regret: what each action would have earned beyond the
/// reward `expected` under the current strategy.
pub open spec fn regrets_against(rewards: Seq<i128>, expected: int) -> Seq<i128> {
    Seq::new(rewards.len(), |i: int| diff_of(rewards[i] as int, expected) as i128)
}

/// The instantaneous regret of `rewards` under `strategy`.
pub open spec fn instantaneous(strategy: Seq<i128>, rewards: Seq<i128>) -> Seq<i128> {
    regrets_against(rewards, dot_of(strategy, rewards))
}

/// `max(0, a[i] + b[i])` over the common length; entries of `a` beyond it
/// stay.
pub open spec fn plus_sums(a: Seq<i128>, b: Seq<i128>) -> Seq<i128> {
    Seq::new(
        a.len(),
        |i: int|
            if i < b.len() {
                positive_part(sum_of(a[i] as int, b[i] as int)) as i128
            } else {
                a[i]
            },
    )
}

/// `max(0, discount * a[i] + b[i])` over the common length; entries of
/// `a` beyond it stay.
pub open spec fn clipped_sums(a: Seq<i128>, discount: int, b: Seq<i128>) -> Seq<i128> {
    Seq::new(
        a.len(),
        |i: int|
            if i < b.len() {
                positive_part(sum_of(product_of(a[i] as int, discount), b[i] as int)) as i128
            } else {
                a[i]
            },
    )
}

/// `a[i] * d + b[i]` over the common length, where `d` is `positive` for
/// a positive `a[i]` and `negative` otherwise; entries of `a` beyond it
/// stay.
pub open spec fn discounted_sums(a: Seq<i128>, positive: int, negative: int, b: Seq<i128>) -> Seq<
    i128,
> {
    Seq::new(
        a.len(),
        |i: int|
            if i < b.len() {
                sum_of(
                    product_of(a[i] as int, if a[i] > 0 { positive } else { negative }),
                    b[i] as int,
                ) as i128
            } else {
                a[i]
            },
    )
}

/// `a[i] + weight * b[i]` over the common length, for a whole-number
/// weight; entries of `a` beyond it stay.
pub open spec fn weighted_sums(a: Seq<i128>, weight: int, b: Seq<i128>) -> Seq<i128> {
    Seq::new(
        a.len(),
        |i: int|
            if i < b.len() {
                sum_of(a[i] as int, scaled(b[i] as int, weight)) as i128
            } else {
                a[i]
            },
    )
}

/// Computes `rewards[i] - expected` for every action.
pub fn instantaneous_regret(rewards: &[i128], expected: i128) -> (r: Vec<i128>)
    ensures
        r@ == regrets_against(rewards@, expected as int),
{
    let n: usize = rewards.len();
    let mut r: Vec<i128> = Vec::new();
    let mut i: usize = 0;
    while i < n
        invariant
            i <= n,
            n == rewards@.len(),
            r@.len() == i,
            forall|j: int| 0 <= j < i ==> r@[j] == diff_of(rewards@[j] as int, expected as int),
        decreases n - i,
    {
        r.push(fx_sub(rewards[i], expected));
        i = i + 1;
    }
    assert(r@ =~= regrets_against(rewards@, expected as int));
    r
}

/// Adds the entry of `b` to every entry of `a` and clips the sum at zero.
pub fn accumulate_plus(a: &mut Vec<i128>, b: &[i128])
    ensures
        final(a)@ == plus_sums(old(a)@, b@),
{
    let n: usize = if a.len() <= b.len() { a.len() } else { b.len() };
    let ghost before = a@;
    let mut i: usize = 0;
    while i < n
        invariant
            i <= n,
            n <= b@.len(),
            n == if before.len() <= b@.len() { before.len() } else { b@.len() },
            a@.len() == before.len(),
            forall|j: int|
                0 <= j < i ==> a@[j] == positive_part(sum_of(before[j] as int, b@[j] as int)),
            forall|j: int| i <= j < a@.len() ==> a@[j] == before[j],
        decreases n - i,
    {
        let x: i128 = fx_positive(fx_add(a[i], b[i]));
        a.set(i, x);
        i = i + 1;
    }
    assert(a@ =~= plus_sums(before, b@));
}

/// Discounts every entry of `a`, adds the entry of `b` and clips the sum
/// at zero: the regret update of the variants that floor their regrets.
pub fn accumulate_clipped(a: &mut Vec<i128>, discount: i128, b: &[i128])
    ensures
        final(a)@ == clipped_sums(old(a)@, discount as int, b@),
{
    let n: usize = if a.len() <= b.len() { a.len() } else { b.len() };
    let ghost before = a@;
    let mut i: usize = 0;
    while i < n
        invariant
            i <= n,
            n <= b@.len(),
            n == if before.len() <= b@.len() { before.len() } else { b@.len() },
            a@.len() == before.len(),
            forall|j: int|
                0 <= j < i ==> a@[j] == positive_part(
                    sum_of(product_of(before[j] as int, discount as int), b@[j] as int),
                ),
            forall|j: int| i <= j < a@.len() ==> a@[j] == before[j],
        decreases n - i,
    {
        let x: i128 = fx_positive(fx_add(fx_mul(a[i], discount), b[i]));
        a.set(i, x);
        i = i + 1;
    }
    assert(a@ =~= clipped_sums(before, discount as int, b@));
}

/// Discounts every entry of `a` by its sign and adds the entry of `b`.
pub fn accumulate_discounted(a: &mut Vec<i128>, positive: i128, negative: i128, b: &[i128])
    ensures
        final(a)@ == discounted_sums(old(a)@, positive as int, negative as int, b@),
{
    let n: usize = if a.len() <= b.len() { a.len() } else { b.len() };
    let ghost before = a@;
    let mut i: usize = 0;
    while i < n
        invariant
            i <= n,
            n <= b@.len(),
            n == if before.len() <= b@.len() { before.len() } else { b@.len() },
            a@.len() == before.len(),
            forall|j: int|
                0 <= j < i ==> a@[j] == sum_of(
                    product_of(
                        before[j] as int,
                        if before[j] > 0 { positive as int } else { negative as int },
                    ),
                    b@[j] as int,
                ),
            forall|j: int| i <= j < a@.len() ==> a@[j] == before[j],
        decreases n - i,
    {
        let d: i128 = if a[i] > 0 { positive } else { negative };
        let x: i128 = fx_add(fx_mul(a[i], d), b[i]);
        a.set(i, x);
        i = i + 1;
    }
    assert(a@ =~= discounted_sums(before, positive as int, negative as int, b@));
}

/// Adds `weight` times every entry of `b` to the entry of `a`: the update
/// of the variants that weight linearly by time.
pub fn accumulate_weighted(a: &mut Vec<i128>, weight: usize, b: &[i128])
    ensures
        final(a)@ == weighted_sums(old(a)@, weight as int, b@),
{
    let n: usize = if a.len() <= b.len() { a.len() } else { b.len() };
    let ghost before = a@;
    let mut i: usize = 0;
    while i < n
        invariant
            i <= n,
            n <= b@.len(),
            n == if before.len() <= b@.len() { before.len() } else { b@.len() },
            a@.len() == before.len(),
            forall|j: int|
                0 <= j < i ==> a@[j] == sum_of(
                    before[j] as int,
                    scaled(b@[j] as int, weight as int),
                ),
            forall|j: int| i <= j < a@.len() ==> a@[j] == before[j],
        decreases n - i,
    {
        let x: i128 = fx_add(a[i], fx_scale(b[i], weight));
        a.set(i, x);
        i = i + 1;
    }
    assert(a@ =~= weighted_sums(before, weight as int, b@));
}

/// Adds `t * t` times every entry of `b` to the entry of `a`: the update
/// of the variants that weight quadratically by time.
pub fn accumulate_squared(a: &mut Vec<i128>, t: usize, b: &[i128])
    ensures
        final(a)@ == weighted_sums(old(a)@, t * t, b@),
{
    let n: usize = if a.len() <= b.len() { a.len() } else { b.len() };
    let ghost before = a@;
    let mut i: usize = 0;
    while i < n
        invariant
            i <= n,
            n <= b@.len(),
            n == if before.len() <= b@.len() { before.len() } else { b@.len() },
            a@.len() == before.len(),
            forall|j: int|
                0 <= j < i ==> a@[j] == sum_of(before[j] as int, scaled(b@[j] as int, t * t)),
            forall|j: int| i <= j < a@.len() ==> a@[j] == before[j],
        decreases n - i,
    {
        let twice: i128 = fx_scale(fx_scale(b[i], t), t);
        proof {
            lemma_scaled_twice(b@[i as int] as int, t as int);
        }
        let x: i128 = fx_add(a[i], twice);
        a.set(i, x);
        i = i + 1;
    }
    assert(a@ =~= weighted_sums(before, t * t, b@));
}

/// Scaling twice by `k` is scaling by `k * k`: saturation loses nothing.
proof fn lemma_scaled_twice(x: int, k: int)
    requires
        k >= 0,
    ensures
        scaled(scaled(x, k), k) == scaled(x, k * k),
{
    if k == 0 {
        assert(x * k == 0 && k * k == 0 && x * (k * k) == 0) by (nonlinear_arith)
            requires
                k == 0,
        ;
        assert(scaled(x, k) * k == 0) by (nonlinear_arith)
            requires
                k == 0,
        ;
    } else {
        assert(x * (k * k) == (x * k) * k) by (nonlinear_arith);
        if x * k > LIMIT {
            assert((x * k) * k > LIMIT && LIMIT * k >= LIMIT) by (nonlinear_arith)
                requires
                    x * k > LIMIT,
                    k >= 1,
                    LIMIT > 0,
            ;
        } else if x * k < -LIMIT {
            assert((x * k) * k < -LIMIT && (-LIMIT) * k <= -LIMIT) by (nonlinear_arith)
                requires
                    x * k < -LIMIT,
                    k >= 1,
                    LIMIT > 0,
            ;
        }
    }
}

} // verus!
