//! Discounted CFR+: regrets are discounted, and floored at zero after the
//! instantaneous regret was added.

use vstd::prelude::*;
use rand::rngs::ThreadRng;
use crate::errors::{LittleError, WeightsFault};
use crate::fixed::MAX_LEN;
use crate::discount::{carried_decay_of, carried_discount_of, DiscountParams};
use crate::accumulate::{
    accumulate_clipped, accumulate_discounted, clipped_sums, discounted_sums, instantaneous,
    instantaneous_regret,
};
use crate::regret_minimizer::{
    dot, is_simplex, lemma_matched_is_simplex, lemma_simplex_is_sampled, lemma_uniform_fault,
    lemma_uniform_is_simplex, matched, normalize_by_sum, regret_match, uniform_seq,
    uniform_weights, zero_seq, zeros, RegretMinimizer,
};
use crate::sampler::{build_sampler, sample_index, sampler_weights, Sampler};

verus! {

/// The recommended regret exponent, 1.5.
pub const DCFR_PLUS_ALPHA: i128 = 0x1_8000_0000;

/// The recommended strategy exponent, 4.
pub const DCFR_PLUS_GAMMA: i128 = 0x4_0000_0000;

/// A regret minimizer implementing DCFR+.
///
/// With `r` the instantaneous regret of the iteration `t` and
/// `d(t) = t^alpha / (t^alpha + 1)`:
/// - regret: `R = max(0, R * d(t - 1) + r)`, nothing carried at `t = 1`;
/// - strategy: the regret, regret-matched;
/// - cumulative strategy: `X = X * ((t - 1) / t)^gamma + x`.
#[derive(Clone, Debug)]
pub struct DcfrPlusRegretMatcher {
    alpha: i128,
    gamma: i128,
    p: Vec<i128>,
    sum_p: Vec<i128>,
    cumulative_regret: Vec<i128>,
    dist: Sampler,
    num_updates: usize,
}

impl DcfrPlusRegretMatcher {
    /// The cumulative regret of every action.
    pub closed spec fn regret(&self) -> Seq<i128> {
        self.cumulative_regret@
    }

    /// The regret exponent.
    pub closed spec fn alpha_view(&self) -> i128 {
        self.alpha
    }

    /// The strategy exponent.
    pub closed spec fn gamma_view(&self) -> i128 {
        self.gamma
    }

    /// Creates a minimizer over `num_experts` actions with the given
    /// exponents. Fails exactly when there is no action or more than
    /// `MAX_LEN` of them.
    pub fn new_with_params(num_experts: usize, alpha: i128, gamma: i128) -> (r: Result<
        Self,
        LittleError,
    >)
        ensures
            (r is Ok) == (0 < num_experts <= MAX_LEN),
            r is Err ==> r == Err::<Self, LittleError>(
                LittleError::Weights(WeightsFault::InvalidInput),
            ),
            r is Ok ==> {
                &&& r->Ok_0.wf()
                &&& r->Ok_0.alpha_view() == alpha
                &&& r->Ok_0.gamma_view() == gamma
                &&& r->Ok_0.strategy() == uniform_seq(num_experts as nat)
                &&& r->Ok_0.cumulative() == zero_seq(num_experts as nat)
                &&& r->Ok_0.regret() == zero_seq(num_experts as nat)
                &&& r->Ok_0.updates() == 0
            },
    {
        let p = uniform_weights(num_experts);
        proof {
            lemma_uniform_fault(num_experts as nat);
            if num_experts > 0 {
                lemma_uniform_is_simplex(num_experts as nat);
            }
        }
        match build_sampler(&p) {
            Ok(dist) => Ok(
                Self {
                    alpha,
                    gamma,
                    p,
                    sum_p: zeros(num_experts),
                    cumulative_regret: zeros(num_experts),
                    dist,
                    num_updates: 0,
                },
            ),
            Err(e) => Err(LittleError::Weights(e)),
        }
    }

    /// Creates a minimizer with the recommended exponents, 1.5 and 4.
    pub fn recommended(num_experts: usize) -> (r: Result<Self, LittleError>)
        ensures
            (r is Ok) == (0 < num_experts <= MAX_LEN),
            r is Err ==> r == Err::<Self, LittleError>(
                LittleError::Weights(WeightsFault::InvalidInput),
            ),
            r is Ok ==> {
                &&& r->Ok_0.wf()
                &&& r->Ok_0.alpha_view() == DCFR_PLUS_ALPHA
                &&& r->Ok_0.gamma_view() == DCFR_PLUS_GAMMA
                &&& r->Ok_0.strategy() == uniform_seq(num_experts as nat)
                &&& r->Ok_0.cumulative() == zero_seq(num_experts as nat)
                &&& r->Ok_0.regret() == zero_seq(num_experts as nat)
                &&& r->Ok_0.updates() == 0
            },
    {
        Self::new_with_params(num_experts, DCFR_PLUS_ALPHA, DCFR_PLUS_GAMMA)
    }

    /// The regret exponent.
    pub fn alpha(&self) -> (a: i128)
        ensures
            a == self.alpha_view(),
    {
        self.alpha
    }

    /// The strategy exponent.
    pub fn gamma(&self) -> (g: i128)
        ensures
            g == self.gamma_view(),
    {
        self.gamma
    }
}

impl RegretMinimizer for DcfrPlusRegretMatcher {
    closed spec fn wf(&self) -> bool {
        &&& 0 < self.p@.len() <= MAX_LEN
        &&& self.sum_p@.len() == self.p@.len()
        &&& self.cumulative_regret@.len() == self.p@.len()
        &&& is_simplex(self.p@)
        &&& sampler_weights(self.dist) == self.p@
    }

    closed spec fn strategy(&self) -> Seq<i128> {
        self.p@
    }

    closed spec fn cumulative(&self) -> Seq<i128> {
        self.sum_p@
    }

    closed spec fn updates(&self) -> nat {
        self.num_updates as nat
    }

    proof fn lemma_wf_lengths(&self) {
    }

    fn new(num_experts: usize) -> (r: Result<Self, LittleError>)
        ensures
            r is Ok ==> {
                &&& r->Ok_0.alpha_view() == DCFR_PLUS_ALPHA
                &&& r->Ok_0.gamma_view() == DCFR_PLUS_GAMMA
                &&& r->Ok_0.regret() == zero_seq(num_experts as nat)
            },
    {
        Self::recommended(num_experts)
    }

    open spec fn steps_to(&self, rewards: Seq<i128>, next: Self) -> bool {
        let t = (self.updates() + 1) as int;
        let alpha = self.alpha_view() as int;
        let gamma = self.gamma_view() as int;
        let inst = instantaneous(self.strategy(), rewards);
        let decay = carried_decay_of(t, gamma);
        &&& next.regret() == clipped_sums(
            self.regret(),
            carried_discount_of(t, alpha),
            inst,
        )
        &&& next.strategy() == matched(next.regret())
        &&& next.cumulative() == discounted_sums(
            self.cumulative(),
            decay,
            decay,
            next.strategy(),
        )
        &&& next.updates() == t
        &&& next.alpha_view() == self.alpha_view()
        &&& next.gamma_view() == self.gamma_view()
    }

    fn update_regret(&mut self, rewards: &[i128]) -> (r: Result<(), LittleError>) {
        let t: usize = self.num_updates + 1;
        let regret_discount: i128 = DiscountParams::carried_discount(t, self.alpha);
        let strategy_discount: i128 = DiscountParams::carried_decay(t, self.gamma);
        let expected: i128 = dot(self.p.as_slice(), rewards);
        let inst: Vec<i128> = instantaneous_regret(rewards, expected);
        accumulate_clipped(&mut self.cumulative_regret, regret_discount, inst.as_slice());
        regret_match(self.cumulative_regret.as_slice(), &mut self.p);
        accumulate_discounted(
            &mut self.sum_p,
            strategy_discount,
            strategy_discount,
            self.p.as_slice(),
        );
        self.num_updates = t;
        proof {
            lemma_matched_is_simplex(self.cumulative_regret@);
            lemma_simplex_is_sampled(self.p@);
        }
        match build_sampler(&self.p) {
            Ok(dist) => {
                self.dist = dist;
                Ok(())
            },
            Err(e) => Err(LittleError::Weights(e)),
        }
    }

    fn num_updates(&self) -> (n: usize) {
        self.num_updates
    }

    fn current_strategy(&self) -> (s: &[i128]) {
        self.p.as_slice()
    }

    fn cumulative_strategy(&self) -> (s: &[i128]) {
        self.sum_p.as_slice()
    }

    fn next_action(&self, rng: &mut ThreadRng) -> (a: usize) {
        sample_index(&self.dist, rng)
    }

    fn best_weight(&self) -> (w: Vec<i128>) {
        proof {
            lemma_matched_is_simplex(self.sum_p@);
        }
        normalize_by_sum(self.sum_p.as_slice())
    }
}

/// Every update is counted, whatever the rewards: the update counter
/// grows by exactly 1, also where no regret is positive.
pub proof fn lemma_dcfr_plus_counts_every_update(
    before: DcfrPlusRegretMatcher,
    rewards: Seq<i128>,
    after: DcfrPlusRegretMatcher,
)
    requires
        before.steps_to(rewards, after),
    ensures
        after.updates() == before.updates() + 1,
{
}

} // verus!
