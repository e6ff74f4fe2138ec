//! The contract that every regret minimizer meets, and the numeric
//! primitives they share: the uniform distribution, the dot product,
//! regret matching, normalization and sampling by a scan.

use vstd::prelude::*;
use rand::rngs::ThreadRng;
use crate::errors::{LittleError, WeightsFault};
use crate::fixed::{
    fx_add, fx_mul, fx_positive, in_range, positive_part, product_of, sum_of, LIMIT, MAX_LEN, ONE,
};
use crate::sampler::{draw_unit, weights_fault};

verus! {

/// One entry of the uniform distribution over `n` actions: `ONE / n`
/// rounded down, and one unit more for each of the first `ONE % n`
/// actions, which take what rounding leaves over.
pub open spec fn uniform_share(n: nat, i: int) -> int {
    (ONE as int) / (n as int) + if i < (ONE as int) % (n as int) {
        1int
    } else {
        0int
    }
}

/// The uniform distribution over `n` actions. Its entries differ by at
/// most one unit and sum to `ONE` exactly.
pub open spec fn uniform_seq(n: nat) -> Seq<i128> {
    Seq::new(n, |i: int| uniform_share(n, i) as i128)
}

/// A vector of `n` zeros.
pub open spec fn zero_seq(n: nat) -> Seq<i128> {
    Seq::new(n, |i: int| 0i128)
}

/// Saturating dot product of the first `k` entries of `a` and `b`, summed
/// from the left, each product rounded down.
pub open spec fn dot_prefix(a: Seq<i128>, b: Seq<i128>, k: nat) -> int
    decreases k,
{
    if k == 0 {
        0
    } else {
        sum_of(
            dot_prefix(a, b, (k - 1) as nat),
            product_of(a[k - 1] as int, b[k - 1] as int),
        )
    }
}

/// Saturating dot product of `a` and `b` over their common length.
pub open spec fn dot_of(a: Seq<i128>, b: Seq<i128>) -> int {
    dot_prefix(a, b, if a.len() <= b.len() { a.len() } else { b.len() })
}

/// Exact sum of the first `k` entries of `v`.
pub open spec fn total_prefix(v: Seq<i128>, k: nat) -> int
    decreases k,
{
    if k == 0 {
        0
    } else {
        total_prefix(v, (k - 1) as nat) + v[k - 1]
    }
}

/// Exact sum of the entries of `v`.
pub open spec fn total_of(v: Seq<i128>) -> int {
    total_prefix(v, v.len())
}

/// Exact sum of the positive parts of the first `k` entries of `v`.
pub open spec fn positive_prefix(v: Seq<i128>, k: nat) -> int
    decreases k,
{
    if k == 0 {
        0
    } else {
        positive_prefix(v, (k - 1) as nat) + positive_part(v[k - 1] as int)
    }
}

/// Exact sum of the positive parts of the entries of `v`.
pub open spec fn positive_total(v: Seq<i128>) -> int {
    positive_prefix(v, v.len())
}

/// Some entry of `v` is strictly positive.
pub open spec fn has_positive(v: Seq<i128>) -> bool {
    positive_total(v) > 0
}

/// The number of strictly positive entries among the first `k` of `v`.
pub open spec fn positive_count(v: Seq<i128>, k: nat) -> int
    decreases k,
{
    if k == 0 {
        0
    } else {
        positive_count(v, (k - 1) as nat) + if v[k - 1] > 0 {
            1int
        } else {
            0int
        }
    }
}

/// The share of the entry `i` in the sum of the positive parts of `v`,
/// rounded down.
pub open spec fn floor_share(v: Seq<i128>, i: int) -> int {
    (positive_part(v[i] as int) * ONE) / positive_total(v)
}

/// The sum of the rounded-down shares of the first `k` entries of `v`.
pub open spec fn floor_prefix(v: Seq<i128>, k: nat) -> int
    decreases k,
{
    if k == 0 {
        0
    } else {
        floor_prefix(v, (k - 1) as nat) + floor_share(v, k - 1)
    }
}

/// The units that the rounded-down shares of `v` fall short of `ONE`.
pub open spec fn shortfall(v: Seq<i128>) -> int {
    ONE - floor_prefix(v, v.len())
}

/// One entry of regret matching: the share rounded down, and one unit more
/// for each of the first positive entries, as many as units fall short.
pub open spec fn matched_share(v: Seq<i128>, i: int) -> int {
    floor_share(v, i) + if v[i] > 0 && positive_count(v, i as nat) < shortfall(v) {
        1int
    } else {
        0int
    }
}

/// Regret matching: the positive parts of `v` divided by their sum, so
/// rounded that the entries sum to `ONE` exactly and none is more than one
/// unit away from its exact share; the uniform distribution where no
/// entry is positive.
pub open spec fn matched(v: Seq<i128>) -> Seq<i128> {
    if has_positive(v) {
        Seq::new(v.len(), |i: int| matched_share(v, i) as i128)
    } else {
        uniform_seq(v.len())
    }
}

/// `v` is a probability vector: no entry is negative, and the entries sum
/// to `ONE`.
pub open spec fn is_simplex(v: Seq<i128>) -> bool {
    &&& forall|i: int| 0 <= i < v.len() ==> 0 <= #[trigger] v[i] <= ONE
    &&& total_of(v) == ONE
}

/// The entrywise saturating sum of `dst` and `src` over their common
/// length; entries of `dst` beyond it stay.
pub open spec fn added(dst: Seq<i128>, src: Seq<i128>) -> Seq<i128> {
    Seq::new(
        dst.len(),
        |i: int|
            if i < src.len() {
                sum_of(dst[i] as int, src[i] as int) as i128
            } else {
                dst[i]
            },
    )
}

/// The vector `p` after its leading entries were replaced by the positive
/// parts of `regrets`, over their common length.
pub open spec fn clipped(regrets: Seq<i128>, p: Seq<i128>) -> Seq<i128> {
    Seq::new(
        p.len(),
        |i: int|
            if i < regrets.len() {
                positive_part(regrets[i] as int) as i128
            } else {
                p[i]
            },
    )
}

/// The saturating sum of the first `k` entries of `p`, from the left.
pub open spec fn running_sum(p: Seq<i128>, k: nat) -> int
    decreases k,
{
    if k == 0 {
        0
    } else {
        sum_of(running_sum(p, (k - 1) as nat), p[k - 1] as int)
    }
}

/// `a` is the action that the draw `r` selects from `p`: the first whose
/// running sum exceeds `r`, and the last action where none does.
pub open spec fn is_selection(p: Seq<i128>, r: int, a: int) -> bool {
    &&& 0 <= a < p.len()
    &&& forall|k: nat| 0 < k <= a ==> r >= #[trigger] running_sum(p, k)
    &&& a < p.len() - 1 ==> r < running_sum(p, (a + 1) as nat)
}

/// Creates the uniform distribution over `n` actions.
pub fn uniform_weights(n: usize) -> (w: Vec<i128>)
    ensures
        w@ == uniform_seq(n as nat),
{
    let mut w: Vec<i128> = Vec::new();
    if n == 0 {
        assert(w@ =~= uniform_seq(0));
        return w;
    }
    let share: i128 = ONE / (n as i128);
    let extra: i128 = ONE % (n as i128);
    let mut i: usize = 0;
    while i < n
        invariant
            i <= n,
            n > 0,
            share == (ONE as int) / (n as int),
            extra == (ONE as int) % (n as int),
            0 <= share <= ONE,
            w@.len() == i,
            forall|j: int| 0 <= j < i ==> w@[j] == uniform_share(n as nat, j),
        decreases n - i,
    {
        if (i as i128) < extra {
            w.push(share + 1);
        } else {
            w.push(share);
        }
        i = i + 1;
    }
    assert(w@ =~= uniform_seq(n as nat));
    w
}

/// Overwrites `p` with the uniform distribution over its length.
pub fn uniform_fill(p: &mut Vec<i128>)
    ensures
        final(p)@ == uniform_seq(old(p)@.len()),
{
    let n: usize = p.len();
    let w: Vec<i128> = uniform_weights(n);
    *p = w;
}

/// Creates a vector of `n` zeros.
pub fn zeros(n: usize) -> (w: Vec<i128>)
    ensures
        w@ == zero_seq(n as nat),
{
    let mut w: Vec<i128> = Vec::new();
    let mut i: usize = 0;
    while i < n
        invariant
            i <= n,
            w@.len() == i,
            forall|j: int| 0 <= j < i ==> w@[j] == 0,
        decreases n - i,
    {
        w.push(0);
        i = i + 1;
    }
    assert(w@ =~= zero_seq(n as nat));
    w
}

/// Dot product of two slices over their common length.
pub fn dot(a: &[i128], b: &[i128]) -> (r: i128)
    ensures
        r == dot_of(a@, b@),
        in_range(r as int),
{
    let n: usize = if a.len() <= b.len() { a.len() } else { b.len() };
    let mut acc: i128 = 0;
    let mut i: usize = 0;
    while i < n
        invariant
            i <= n,
            n <= a@.len(),
            n <= b@.len(),
            acc == dot_prefix(a@, b@, i as nat),
            in_range(acc as int),
        decreases n - i,
    {
        acc = fx_add(acc, fx_mul(a[i], b[i]));
        i = i + 1;
    }
    acc
}

/// `dst[i] += src[i]`, saturating, over the common length.
pub fn add_assign(dst: &mut Vec<i128>, src: &[i128])
    ensures
        final(dst)@ == added(old(dst)@, src@),
{
    let n: usize = if dst.len() <= src.len() { dst.len() } else { src.len() };
    let ghost before = dst@;
    let mut i: usize = 0;
    while i < n
        invariant
            i <= n,
            n <= src@.len(),
            n == if before.len() <= src@.len() { before.len() } else { src@.len() },
            dst@.len() == before.len(),
            forall|j: int| 0 <= j < i ==> dst@[j] == sum_of(before[j] as int, src@[j] as int),
            forall|j: int| i <= j < dst@.len() ==> dst@[j] == before[j],
        decreases n - i,
    {
        let s: i128 = fx_add(dst[i], src[i]);
        dst.set(i, s);
        i = i + 1;
    }
    assert(dst@ =~= added(before, src@));
}

/// Exact sum of the positive parts of a slice.
pub fn positive_sum(v: &[i128]) -> (r: i128)
    requires
        v@.len() <= MAX_LEN,
    ensures
        r == positive_total(v@),
        0 <= r <= v@.len() * LIMIT,
{
    let n: usize = v.len();
    let mut acc: i128 = 0;
    let mut i: usize = 0;
    while i < n
        invariant
            i <= n,
            n == v@.len(),
            n <= MAX_LEN,
            acc == positive_prefix(v@, i as nat),
        decreases n - i,
    {
        proof {
            lemma_positive_prefix_bounds(v@, i as nat);
            assert(i * LIMIT <= (MAX_LEN - 1) * LIMIT) by (nonlinear_arith)
                requires
                    i <= MAX_LEN - 1,
            ;
        }
        acc = acc + fx_positive(v[i]);
        i = i + 1;
    }
    proof {
        lemma_positive_prefix_bounds(v@, n as nat);
    }
    acc
}

/// Normalizes the positive parts of `p` to sum to 1; falls back to the
/// uniform distribution where none is positive.
pub fn normalize_inplace(p: &mut Vec<i128>)
    requires
        old(p)@.len() <= MAX_LEN,
    ensures
        final(p)@ == matched(old(p)@),
{
    let w: Vec<i128> = normalize_by_sum(p.as_slice());
    *p = w;
}

/// The positive parts of `v`, normalized to sum to 1, as a new vector;
/// the uniform distribution where none is positive.
pub fn normalize_by_sum(v: &[i128]) -> (w: Vec<i128>)
    requires
        v@.len() <= MAX_LEN,
    ensures
        w@ == matched(v@),
{
    let total: i128 = positive_sum(v);
    if total <= 0 {
        return uniform_weights(v.len());
    }
    let n: usize = v.len();
    let mut w: Vec<i128> = Vec::new();
    let mut given: i128 = 0;
    let mut i: usize = 0;
    while i < n
        invariant
            i <= n,
            n == v@.len(),
            n <= MAX_LEN,
            w@.len() == i,
            total == positive_total(v@),
            total > 0,
            given == floor_prefix(v@, i as nat),
            0 <= given <= i * ONE,
            forall|j: int| 0 <= j < i ==> w@[j] == floor_share(v@, j),
        decreases n - i,
    {
        let x: i128 = fx_positive(v[i]);
        proof {
            lemma_positive_prefix_bounds(v@, n as nat);
            assert(x == positive_part(v@[i as int] as int));
            lemma_share_bounds(x as int, total as int);
            assert((i + 1) * ONE == i * ONE + ONE) by (nonlinear_arith);
            assert(i * ONE <= 0xFFFF_FFFF * 0x1_0000_0000) by (nonlinear_arith)
                requires
                    i <= 0xFFFF_FFFF,
                    ONE == 0x1_0000_0000,
            ;
        }
        let q: i128 = (x * ONE) / total;
        w.push(q);
        given = given + q;
        i = i + 1;
    }
    let short: i128 = ONE - given;
    let mut count: i128 = 0;
    let mut k: usize = 0;
    while k < n
        invariant
            k <= n,
            n == v@.len(),
            n <= MAX_LEN,
            w@.len() == n,
            has_positive(v@),
            short == shortfall(v@),
            count == positive_count(v@, k as nat),
            0 <= count <= k,
            forall|j: int| 0 <= j < k ==> w@[j] == matched_share(v@, j),
            forall|j: int| k <= j < n ==> w@[j] == floor_share(v@, j),
        decreases n - k,
    {
        proof {
            lemma_positive_prefix_bounds(v@, n as nat);
            lemma_share_bounds(positive_part(v@[k as int] as int), positive_total(v@));
        }
        if v[k] > 0 {
            if count < short {
                let q: i128 = w[k];
                w.set(k, q + 1);
            }
            count = count + 1;
        }
        k = k + 1;
    }
    proof {
        assert forall|j: int| 0 <= j < n implies w@[j] == matched(v@)[j] by {
            lemma_positive_prefix_bounds(v@, n as nat);
            lemma_share_bounds(positive_part(v@[j] as int), positive_total(v@));
        }
        assert(w@ =~= matched(v@));
    }
    w
}

/// Sets `p[i] = max(0, regrets[i])` over the common length and normalizes
/// `p` to sum to 1; falls back to the uniform distribution where no entry
/// is positive.
pub fn regret_match(regrets: &[i128], p: &mut Vec<i128>)
    requires
        old(p)@.len() <= MAX_LEN,
    ensures
        final(p)@ == matched(clipped(regrets@, old(p)@)),
        regrets@.len() == old(p)@.len() ==> final(p)@ == matched(regrets@),
{
    let ghost before = p@;
    let n: usize = if p.len() <= regrets.len() { p.len() } else { regrets.len() };
    let mut i: usize = 0;
    while i < n
        invariant
            i <= n,
            n == if before.len() <= regrets@.len() { before.len() } else { regrets@.len() },
            p@.len() == before.len(),
            forall|j: int| 0 <= j < i ==> p@[j] == positive_part(regrets@[j] as int),
            forall|j: int| i <= j < p@.len() ==> p@[j] == before[j],
        decreases n - i,
    {
        let x: i128 = fx_positive(regrets[i]);
        p.set(i, x);
        i = i + 1;
    }
    proof {
        assert(p@ =~= clipped(regrets@, before));
        if regrets@.len() == before.len() {
            lemma_matched_clipped(regrets@, before);
        }
    }
    normalize_inplace(p);
}

/// Selects an action from the distribution `p` by the draw `r`: scans
/// the running sums of `p` for the first that exceeds `r`.
pub fn select_action(p: &[i128], r: i128) -> (a: usize)
    requires
        p@.len() > 0,
    ensures
        is_selection(p@, r as int, a as int),
        r < running_sum(p@, p@.len()) ==> r < running_sum(p@, (a + 1) as nat),
        r >= 0 && r < running_sum(p@, p@.len()) ==> p@[a as int] > 0,
{
    let n: usize = p.len();
    let mut cumsum: i128 = 0;
    let mut i: usize = 0;
    while i < n
        invariant
            i <= n,
            n == p@.len(),
            cumsum == running_sum(p@, i as nat),
            in_range(cumsum as int),
            forall|k: nat| 0 < k <= i ==> r >= #[trigger] running_sum(p@, k),
            i > 0 ==> r >= cumsum,
        decreases n - i,
    {
        let next: i128 = fx_add(cumsum, p[i]);
        if r < next {
            return i;
        }
        cumsum = next;
        i = i + 1;
    }
    n - 1
}

/// Calls the generator for a draw in `[0, 1)` and selects an action from
/// `p` by it. Whatever the draw, the action is the selection of some draw
/// in that range.
pub fn sample_action(p: &[i128], rng: &mut ThreadRng) -> (a: usize)
    requires
        p@.len() > 0,
    ensures
        a < p@.len(),
        exists|r: int| 0 <= r < ONE && is_selection(p@, r, a as int),
        running_sum(p@, p@.len()) >= ONE ==> p@[a as int] > 0,
{
    let r: i128 = draw_unit(rng);
    let a: usize = select_action(p, r);
    assert(0 <= r < ONE && is_selection(p@, r as int, a as int));
    a
}

/// A regret minimizer over a fixed set of actions.
///
/// It owns a current strategy and a cumulative strategy; `update_regret`
/// takes the reward each action would have earned and moves both.
pub trait RegretMinimizer: Sized + Clone {
    /// The minimizer's internal invariant.
    spec fn wf(&self) -> bool;

    /// The current strategy.
    spec fn strategy(&self) -> Seq<i128>;

    /// The cumulative strategy.
    spec fn cumulative(&self) -> Seq<i128>;

    /// The number of updates counted so far.
    spec fn updates(&self) -> nat;

    /// A well-formed minimizer has at least one action and at most
    /// `MAX_LEN`, and its cumulative strategy holds one entry for each.
    proof fn lemma_wf_lengths(&self)
        requires
            self.wf(),
        ensures
            0 < self.strategy().len() <= MAX_LEN,
            self.cumulative().len() == self.strategy().len(),
    ;

    /// Creates a minimizer over `num_experts` actions, with the uniform
    /// strategy, an empty cumulative strategy and no updates. Fails exactly
    /// when there is no action or more than `MAX_LEN` of them.
    fn new(num_experts: usize) -> (r: Result<Self, LittleError>)
        ensures
            (r is Ok) == (0 < num_experts <= MAX_LEN),
            r is Err ==> r == Err::<Self, LittleError>(
                LittleError::Weights(WeightsFault::InvalidInput),
            ),
            r is Ok ==> {
                &&& r->Ok_0.wf()
                &&& r->Ok_0.strategy() == uniform_seq(num_experts as nat)
                &&& is_simplex(r->Ok_0.strategy())
                &&& r->Ok_0.cumulative() == zero_seq(num_experts as nat)
                &&& r->Ok_0.updates() == 0
            },
    ;

    /// The update rule: `next` is the minimizer that this one becomes
    /// when it is given `rewards`.
    spec fn steps_to(&self, rewards: Seq<i128>, next: Self) -> bool;

    /// Takes the reward each action would have earned and moves the
    /// minimizer by its update rule. Never fails on a well-formed
    /// minimizer; the new strategy is a probability vector.
    fn update_regret(&mut self, rewards: &[i128]) -> (r: Result<(), LittleError>)
        requires
            old(self).wf(),
            rewards@.len() == old(self).strategy().len(),
            old(self).updates() < usize::MAX,
        ensures
            r is Ok,
            old(self).steps_to(rewards@, *final(self)),
            final(self).wf(),
            final(self).strategy().len() == old(self).strategy().len(),
            final(self).cumulative().len() == old(self).cumulative().len(),
            is_simplex(final(self).strategy()),
            final(self).updates() <= old(self).updates() + 1,
    ;

    /// The number of updates counted so far.
    fn num_updates(&self) -> (n: usize)
        ensures
            n == self.updates(),
    ;

    /// The current strategy.
    fn current_strategy(&self) -> (s: &[i128])
        ensures
            s@ == self.strategy(),
    ;

    /// The cumulative strategy.
    fn cumulative_strategy(&self) -> (s: &[i128])
        ensures
            s@ == self.cumulative(),
    ;

    /// Samples an action from the current strategy. Whatever the generator
    /// yields, the action exists and its probability is not zero.
    fn next_action(&self, rng: &mut ThreadRng) -> (a: usize)
        requires
            self.wf(),
        ensures
            a < self.strategy().len(),
            self.strategy()[a as int] > 0,
    ;

    /// The average strategy: the cumulative strategy normalized to sum to
    /// 1, or the uniform distribution while nothing has accumulated.
    fn best_weight(&self) -> (w: Vec<i128>)
        requires
            self.wf(),
        ensures
            w@ == matched(self.cumulative()),
            w@.len() == self.strategy().len(),
            is_simplex(w@),
    ;
}

/// The positive parts of a prefix are bounded by `LIMIT` each.
pub proof fn lemma_positive_prefix_bounds(v: Seq<i128>, k: nat)
    requires
        k <= v.len(),
    ensures
        0 <= positive_prefix(v, k) <= k * LIMIT,
        forall|i: int| 0 <= i < k && v[i] > 0 ==> positive_prefix(v, k) > 0,
        forall|i: int| 0 <= i < k ==> positive_part(#[trigger] v[i] as int) <= positive_prefix(v, k),
    decreases k,
{
    if k > 0 {
        lemma_positive_prefix_bounds(v, (k - 1) as nat);
        assert(k * LIMIT == (k - 1) * LIMIT + LIMIT) by (nonlinear_arith);
    }
}

/// One quotient of regret matching lies between 0 and `ONE`, and loses less
/// than one unit to rounding.
proof fn lemma_share_bounds(x: int, s: int)
    requires
        0 <= x <= s,
        s > 0,
    ensures
        0 <= (x * ONE) / s <= ONE,
        ((x * ONE) / s) * s <= x * ONE,
        ((x * ONE) / s) * s >= x * ONE - s + 1,
{
    let n = x * ONE;
    assert(0 <= n <= s * ONE) by (nonlinear_arith)
        requires
            n == x * ONE,
            0 <= x <= s,
            ONE == 0x1_0000_0000,
    ;
    vstd::arithmetic::div_mod::lemma_fundamental_div_mod(n, s);
    vstd::arithmetic::div_mod::lemma_mod_bound(n, s);
    assert(n == s * (n / s) + n % s);
    assert((n / s) * s == s * (n / s)) by (nonlinear_arith);
    assert(0 <= n / s) by (nonlinear_arith)
        requires
            n >= 0,
            s > 0,
    ;
    assert(n / s <= ONE) by (nonlinear_arith)
        requires
            n == s * (n / s) + n % s,
            0 <= n % s,
            n <= s * ONE,
            s > 0,
    ;
}

/// The sum of the rounded-down shares of a prefix, measured against the
/// sum of the regrets it came from: a positive entry loses less than one
/// unit, any other nothing.
proof fn lemma_floor_prefix(v: Seq<i128>, k: nat)
    requires
        k <= v.len(),
        has_positive(v),
    ensures
        0 <= positive_count(v, k) <= k,
        positive_prefix(v, k) > 0 ==> positive_count(v, k) > 0,
        0 <= floor_prefix(v, k) <= k * ONE,
        floor_prefix(v, k) * positive_total(v) <= ONE * positive_prefix(v, k),
        floor_prefix(v, k) * positive_total(v) >= ONE * positive_prefix(v, k) - positive_count(
            v,
            k,
        ) * positive_total(v) + positive_count(v, k),
    decreases k,
{
    if k > 0 {
        let s = positive_total(v);
        let x = positive_part(v[k - 1] as int);
        let q = floor_share(v, k - 1);
        let f0 = floor_prefix(v, (k - 1) as nat);
        let p0 = positive_prefix(v, (k - 1) as nat);
        let c0 = positive_count(v, (k - 1) as nat);
        lemma_floor_prefix(v, (k - 1) as nat);
        lemma_positive_prefix_bounds(v, v.len());
        lemma_share_bounds(x, s);
        assert((f0 + q) * s == f0 * s + q * s) by (nonlinear_arith);
        assert(ONE * (p0 + x) == ONE * p0 + x * ONE) by (nonlinear_arith);
        assert(k * ONE == (k - 1) * ONE + ONE) by (nonlinear_arith);
        if v[k - 1] > 0 {
            assert((c0 + 1) * s == c0 * s + s) by (nonlinear_arith);
        } else {
            assert(x == 0);
            assert((0 * ONE) / s == 0) by (nonlinear_arith)
                requires
                    s > 0,
            ;
            assert(x * ONE == 0);
            assert(q == 0);
        }
    } else {
        assert(0 * positive_total(v) == 0);
        assert(ONE * 0 == 0);
    }
}

/// Fewer units fall short than entries are positive, so every unit finds
/// an entry to go to.
proof fn lemma_shortfall(v: Seq<i128>)
    requires
        has_positive(v),
    ensures
        0 <= shortfall(v) < positive_count(v, v.len()),
{
    let s = positive_total(v);
    let q = floor_prefix(v, v.len());
    let c = positive_count(v, v.len());
    lemma_floor_prefix(v, v.len());
    assert(q <= ONE) by (nonlinear_arith)
        requires
            q * s <= ONE * s,
            s > 0,
    ;
    assert(ONE - q < c) by (nonlinear_arith)
        requires
            q * s >= ONE * s - c * s + c,
            s > 0,
            c > 0,
    ;
}

/// Every share of regret matching lies less than one unit away from the
/// exact ratio of the regret to the sum of the positive regrets, and an
/// entry that is not positive gets nothing.
pub proof fn lemma_matched_share(v: Seq<i128>, i: int)
    requires
        0 <= i < v.len(),
        has_positive(v),
    ensures
        0 <= matched(v)[i] <= ONE,
        v[i] <= 0 ==> matched(v)[i] == 0,
        (matched(v)[i] - 1) * positive_total(v) <= positive_part(v[i] as int) * ONE,
        positive_part(v[i] as int) * ONE < (matched(v)[i] + 1) * positive_total(v),
{
    let s = positive_total(v);
    let x = positive_part(v[i] as int);
    let q = (x * ONE) / s;
    lemma_positive_prefix_bounds(v, v.len());
    lemma_share_bounds(x, s);
    lemma_matched_is_simplex(v);
    let m = matched(v)[i] as int;
    assert(m == matched_share(v, i));
    assert(m == q || m == q + 1);
    assert((q + 1) * s == q * s + s) by (nonlinear_arith);
    assert((q + 2) * s == q * s + 2 * s) by (nonlinear_arith);
    assert((q - 1) * s == q * s - s) by (nonlinear_arith);
    assert((q + 1 - 1) * s == q * s);
    if v[i] <= 0 {
        assert((0 * ONE) / s == 0) by (nonlinear_arith)
            requires
                s > 0,
        ;
    }
}

/// The sum of a prefix of a regret-matched vector: the rounded-down shares
/// and the units handed out so far.
proof fn lemma_matched_prefix(v: Seq<i128>, k: nat)
    requires
        k <= v.len(),
        has_positive(v),
    ensures
        total_prefix(matched(v), k) == floor_prefix(v, k) + if positive_count(v, k) < shortfall(
            v,
        ) {
            positive_count(v, k)
        } else {
            shortfall(v)
        },
    decreases k,
{
    lemma_shortfall(v);
    if k > 0 {
        lemma_matched_prefix(v, (k - 1) as nat);
        lemma_floor_prefix(v, (k - 1) as nat);
        lemma_positive_prefix_bounds(v, v.len());
        lemma_share_bounds(positive_part(v[k - 1] as int), positive_total(v));
        assert(matched(v)[k - 1] == matched_share(v, k - 1));
    }
}

/// In a vector without negative entries no entry exceeds the sum.
proof fn lemma_entry_below_total(v: Seq<i128>, k: nat)
    requires
        k <= v.len(),
        forall|i: int| 0 <= i < v.len() ==> 0 <= #[trigger] v[i],
    ensures
        0 <= total_prefix(v, k),
        forall|i: int| 0 <= i < k ==> #[trigger] v[i] <= total_prefix(v, k),
    decreases k,
{
    if k > 0 {
        lemma_entry_below_total(v, (k - 1) as nat);
    }
}

/// The sum of a prefix of the uniform distribution.
proof fn lemma_uniform_prefix(n: nat, k: nat)
    requires
        k <= n,
        n > 0,
    ensures
        total_prefix(uniform_seq(n), k) == k * ((ONE as int) / (n as int)) + if k < (ONE as int)
            % (n as int) {
            k as int
        } else {
            (ONE as int) % (n as int)
        },
    decreases k,
{
    let u = (ONE as int) / (n as int);
    vstd::arithmetic::div_mod::lemma_mod_bound(ONE as int, n as int);
    if k > 0 {
        lemma_uniform_prefix(n, (k - 1) as nat);
        assert(0 <= u <= ONE) by (nonlinear_arith)
            requires
                u == (ONE as int) / (n as int),
                n > 0,
                ONE == 0x1_0000_0000,
        ;
        assert(uniform_seq(n)[k - 1] == uniform_share(n, k - 1));
        let j: int = k - 1;
        assert((k as int) * u == j * u + u) by (nonlinear_arith)
            requires
                j == k - 1,
        ;
    } else {
        assert((k as int) * u == 0) by (nonlinear_arith)
            requires
                k == 0,
        ;
    }
}

/// The uniform distribution is a probability vector.
pub proof fn lemma_uniform_is_simplex(n: nat)
    requires
        n > 0,
    ensures
        is_simplex(uniform_seq(n)),
{
    let u = (ONE as int) / (n as int);
    let m = uniform_seq(n);
    lemma_uniform_prefix(n, n);
    vstd::arithmetic::div_mod::lemma_fundamental_div_mod(ONE as int, n as int);
    vstd::arithmetic::div_mod::lemma_mod_bound(ONE as int, n as int);
    assert(0 <= u <= ONE) by (nonlinear_arith)
        requires
            u == (ONE as int) / (n as int),
            n > 0,
            ONE == 0x1_0000_0000,
    ;
    assert((n as int) * u == n * u);
    assert forall|i: int| 0 <= i < m.len() implies 0 <= #[trigger] m[i] by {}
    lemma_entry_below_total(m, n);
}

/// Regret matching yields a probability vector, whatever the regrets.
pub proof fn lemma_matched_is_simplex(v: Seq<i128>)
    requires
        v.len() > 0,
    ensures
        is_simplex(matched(v)),
        matched(v).len() == v.len(),
{
    if has_positive(v) {
        let m = matched(v);
        let n = v.len();
        lemma_positive_prefix_bounds(v, n);
        lemma_shortfall(v);
        assert forall|i: int| 0 <= i < m.len() implies 0 <= #[trigger] m[i] by {
            lemma_share_bounds(positive_part(v[i] as int), positive_total(v));
        }
        lemma_matched_prefix(v, n);
        lemma_entry_below_total(m, n);
    } else {
        lemma_uniform_is_simplex(v.len());
    }
}

/// A probability vector sums to 1 exactly, and so within any tolerance;
/// it holds for any number of actions.
pub proof fn lemma_simplex_tolerance(v: Seq<i128>)
    requires
        is_simplex(v),
    ensures
        total_of(v) == ONE,
        (ONE - total_of(v)) * 100000 < ONE,
        (total_of(v) - ONE) * 100000 < ONE,
{
}

proof fn lemma_positive_prefix_zero(v: Seq<i128>, k: nat)
    requires
        k <= v.len(),
        forall|i: int| 0 <= i < v.len() ==> #[trigger] v[i] <= 0,
    ensures
        positive_prefix(v, k) == 0,
    decreases k,
{
    if k > 0 {
        lemma_positive_prefix_zero(v, (k - 1) as nat);
    }
}

/// Where no regret is positive, regret matching gives the uniform
/// distribution.
pub proof fn lemma_matched_without_positive(v: Seq<i128>)
    requires
        forall|i: int| 0 <= i < v.len() ==> #[trigger] v[i] <= 0,
    ensures
        matched(v) == uniform_seq(v.len()),
{
    lemma_positive_prefix_zero(v, v.len());
}

proof fn lemma_clipped_prefix(regrets: Seq<i128>, p: Seq<i128>, k: nat)
    requires
        regrets.len() == p.len(),
        k <= p.len(),
    ensures
        positive_prefix(clipped(regrets, p), k) == positive_prefix(regrets, k),
        positive_count(clipped(regrets, p), k) == positive_count(regrets, k),
    decreases k,
{
    if k > 0 {
        lemma_clipped_prefix(regrets, p, (k - 1) as nat);
    }
}

proof fn lemma_clipped_floor(regrets: Seq<i128>, p: Seq<i128>, k: nat)
    requires
        regrets.len() == p.len(),
        k <= p.len(),
    ensures
        floor_prefix(clipped(regrets, p), k) == floor_prefix(regrets, k),
    decreases k,
{
    lemma_clipped_prefix(regrets, p, p.len());
    if k > 0 {
        lemma_clipped_floor(regrets, p, (k - 1) as nat);
    }
}

/// Clipping before matching changes nothing: matching clips by itself.
pub proof fn lemma_matched_clipped(regrets: Seq<i128>, p: Seq<i128>)
    requires
        regrets.len() == p.len(),
    ensures
        matched(clipped(regrets, p)) == matched(regrets),
{
    let c = clipped(regrets, p);
    lemma_clipped_prefix(regrets, p, p.len());
    lemma_clipped_floor(regrets, p, p.len());
    assert forall|i: int| 0 <= i < p.len() implies matched_share(c, i) == matched_share(
        regrets,
        i,
    ) by {
        lemma_clipped_prefix(regrets, p, i as nat);
    }
    assert(matched(c) =~= matched(regrets));
}

/// A vector of zeros sums to zero.
proof fn lemma_total_of_zeros(v: Seq<i128>, k: nat)
    requires
        k <= v.len(),
        forall|i: int| 0 <= i < v.len() ==> #[trigger] v[i] == 0,
    ensures
        total_prefix(v, k) == 0,
    decreases k,
{
    if k > 0 {
        lemma_total_of_zeros(v, (k - 1) as nat);
    }
}

/// A strategy that passes the sampler's checks: it is not empty, fits the
/// sampler, and is a probability vector.
pub proof fn lemma_simplex_is_sampled(p: Seq<i128>)
    requires
        0 < p.len() <= MAX_LEN,
        is_simplex(p),
    ensures
        weights_fault(p) is None,
{
    assert((i128::MAX as int) / (p.len() as int) >= ONE) by (nonlinear_arith)
        requires
            0 < p.len() <= 0xFFFF_FFFF,
            ONE == 0x1_0000_0000,
            i128::MAX == 0x7FFF_FFFF_FFFF_FFFF_FFFF_FFFF_FFFF_FFFF,
    ;
    if forall|i: int| 0 <= i < p.len() ==> #[trigger] p[i] == 0 {
        lemma_total_of_zeros(p, p.len());
    }
}

/// The uniform distribution over `n` actions passes the sampler's checks
/// exactly when `n` is positive and at most `MAX_LEN`.
pub proof fn lemma_uniform_fault(n: nat)
    ensures
        weights_fault(uniform_seq(n)) == if 0 < n <= MAX_LEN {
            None
        } else {
            Some(WeightsFault::InvalidInput)
        },
{
    if 0 < n <= MAX_LEN {
        lemma_uniform_is_simplex(n);
        lemma_simplex_is_sampled(uniform_seq(n));
    }
}

proof fn lemma_total_prefix_grows(v: Seq<i128>, k: nat, n: nat)
    requires
        k <= n <= v.len(),
        forall|i: int| 0 <= i < v.len() ==> 0 <= #[trigger] v[i],
    ensures
        0 <= total_prefix(v, k) <= total_prefix(v, n),
    decreases n,
{
    lemma_entry_below_total(v, k);
    if k < n {
        lemma_total_prefix_grows(v, k, (n - 1) as nat);
    }
}

/// On a probability vector the running sums never saturate: each is the
/// exact sum of its prefix, and the last is `ONE`. So a draw below 1
/// always selects an action of positive probability.
pub proof fn lemma_simplex_running_sum(p: Seq<i128>, k: nat)
    requires
        is_simplex(p),
        k <= p.len(),
    ensures
        running_sum(p, k) == total_prefix(p, k),
        0 <= running_sum(p, k) <= ONE,
    decreases k,
{
    lemma_total_prefix_grows(p, k, p.len());
    if k > 0 {
        lemma_simplex_running_sum(p, (k - 1) as nat);
    }
}

} // verus!
