//! Discounted CFR: cumulative regrets are discounted by their sign, and
//! the average strategy by time.

use vstd::prelude::*;
use rand::rngs::ThreadRng;
use crate::errors::{LittleError, WeightsFault};
use crate::fixed::MAX_LEN;
use crate::discount::{decay_of, discount_of, DiscountParams};
use crate::accumulate::{
    accumulate_discounted, discounted_sums, instantaneous, instantaneous_regret,
};
use crate::regret_minimizer::{
    dot, is_simplex, lemma_matched_is_simplex, lemma_simplex_is_sampled, lemma_uniform_fault,
    lemma_uniform_is_simplex, matched, normalize_by_sum, regret_match, uniform_seq,
    uniform_weights, zero_seq, zeros, RegretMinimizer,
};
use crate::sampler::{build_sampler, sample_index, sampler_weights, Sampler};

verus! {

/// A regret minimizer implementing discounted CFR.
///
/// With `r` the instantaneous regret of the iteration `t` and
/// `d(t, e) = t^e / (t^e + 1)`:
/// - regret: `R = R * d(t, alpha) + r` for a positive `R`, and
///   `R = R * d(t, beta) + r` otherwise;
/// - strategy: the regret, regret-matched;
/// - cumulative strategy: `X = X * (t / (t + 1))^gamma + x`.
#[derive(Clone, Debug)]
pub struct DiscountedRegretMatcher {
    params: DiscountParams,
    p: Vec<i128>,
    sum_p: Vec<i128>,
    cumulative_regret: Vec<i128>,
    dist: Sampler,
    num_updates: usize,
}

impl DiscountedRegretMatcher {
    /// The cumulative regret of every action.
    pub closed spec fn regret(&self) -> Seq<i128> {
        self.cumulative_regret@
    }

    /// The discount parameters.
    pub closed spec fn params_view(&self) -> DiscountParams {
        self.params
    }

    /// Creates a minimizer over `num_experts` actions with the given
    /// discount parameters. Fails exactly when there is no action or more
    /// than `MAX_LEN` of them.
    pub fn new_with_params(num_experts: usize, params: DiscountParams) -> (r: Result<
        Self,
        LittleError,
    >)
        ensures
            (r is Ok) == (0 < num_experts <= MAX_LEN),
            r is Err ==> r == Err::<Self, LittleError>(
                LittleError::Weights(WeightsFault::InvalidInput),
            ),
            r is Ok ==> {
                &&& r->Ok_0.wf()
                &&& r->Ok_0.params_view() == params
                &&& r->Ok_0.strategy() == uniform_seq(num_experts as nat)
                &&& r->Ok_0.cumulative() == zero_seq(num_experts as nat)
                &&& r->Ok_0.regret() == zero_seq(num_experts as nat)
                &&& r->Ok_0.updates() == 0
            },
    {
        let p = uniform_weights(num_experts);
        proof {
            lemma_uniform_fault(num_experts as nat);
            if num_experts > 0 {
                lemma_uniform_is_simplex(num_experts as nat);
            }
        }
        match build_sampler(&p) {
            Ok(dist) => Ok(
                Self {
                    params,
                    p,
                    sum_p: zeros(num_experts),
                    cumulative_regret: zeros(num_experts),
                    dist,
                    num_updates: 0,
                },
            ),
            Err(e) => Err(LittleError::Weights(e)),
        }
    }

    /// Creates a minimizer with linear discounting.
    pub fn lcfr(num_experts: usize) -> (r: Result<Self, LittleError>)
        ensures
            (r is Ok) == (0 < num_experts <= MAX_LEN),
            r is Err ==> r == Err::<Self, LittleError>(
                LittleError::Weights(WeightsFault::InvalidInput),
            ),
            r is Ok ==> {
                &&& r->Ok_0.wf()
                &&& r->Ok_0.params_view() == DiscountParams::spec_lcfr()
                &&& r->Ok_0.strategy() == uniform_seq(num_experts as nat)
                &&& r->Ok_0.cumulative() == zero_seq(num_experts as nat)
                &&& r->Ok_0.regret() == zero_seq(num_experts as nat)
                &&& r->Ok_0.updates() == 0
            },
    {
        Self::new_with_params(num_experts, DiscountParams::lcfr())
    }

    /// Creates a minimizer with the recommended discount parameters.
    pub fn recommended(num_experts: usize) -> (r: Result<Self, LittleError>)
        ensures
            (r is Ok) == (0 < num_experts <= MAX_LEN),
            r is Err ==> r == Err::<Self, LittleError>(
                LittleError::Weights(WeightsFault::InvalidInput),
            ),
            r is Ok ==> {
                &&& r->Ok_0.wf()
                &&& r->Ok_0.params_view() == DiscountParams::spec_recommended()
                &&& r->Ok_0.strategy() == uniform_seq(num_experts as nat)
                &&& r->Ok_0.cumulative() == zero_seq(num_experts as nat)
                &&& r->Ok_0.regret() == zero_seq(num_experts as nat)
                &&& r->Ok_0.updates() == 0
            },
    {
        Self::new_with_params(num_experts, DiscountParams::recommended())
    }

    /// Creates a minimizer with the discount parameters that are safe
    /// with regret-based pruning.
    pub fn pruning_safe(num_experts: usize) -> (r: Result<Self, LittleError>)
        ensures
            (r is Ok) == (0 < num_experts <= MAX_LEN),
            r is Err ==> r == Err::<Self, LittleError>(
                LittleError::Weights(WeightsFault::InvalidInput),
            ),
            r is Ok ==> {
                &&& r->Ok_0.wf()
                &&& r->Ok_0.params_view() == DiscountParams::spec_pruning_safe()
                &&& r->Ok_0.strategy() == uniform_seq(num_experts as nat)
                &&& r->Ok_0.cumulative() == zero_seq(num_experts as nat)
                &&& r->Ok_0.regret() == zero_seq(num_experts as nat)
                &&& r->Ok_0.updates() == 0
            },
    {
        Self::new_with_params(num_experts, DiscountParams::pruning_safe())
    }

    /// The discount parameters of this minimizer.
    pub fn params(&self) -> (r: DiscountParams)
        ensures
            r == self.params_view(),
    {
        self.params
    }
}

impl RegretMinimizer for DiscountedRegretMatcher {
    closed spec fn wf(&self) -> bool {
        &&& 0 < self.p@.len() <= MAX_LEN
        &&& self.sum_p@.len() == self.p@.len()
        &&& self.cumulative_regret@.len() == self.p@.len()
        &&& is_simplex(self.p@)
        &&& sampler_weights(self.dist) == self.p@
    }

    closed spec fn strategy(&self) -> Seq<i128> {
        self.p@
    }

    closed spec fn cumulative(&self) -> Seq<i128> {
        self.sum_p@
    }

    closed spec fn updates(&self) -> nat {
        self.num_updates as nat
    }

    proof fn lemma_wf_lengths(&self) {
    }

    fn new(num_experts: usize) -> (r: Result<Self, LittleError>)
        ensures
            r is Ok ==> {
                &&& r->Ok_0.params_view() == DiscountParams::spec_recommended()
                &&& r->Ok_0.regret() == zero_seq(num_experts as nat)
            },
    {
        Self::recommended(num_experts)
    }

    open spec fn steps_to(&self, rewards: Seq<i128>, next: Self) -> bool {
        let t = (self.updates() + 1) as int;
        let params = self.params_view();
        let inst = instantaneous(self.strategy(), rewards);
        let decay = decay_of(t, t + 1, params.gamma as int);
        &&& next.regret() == discounted_sums(
            self.regret(),
            discount_of(t, params.alpha as int),
            discount_of(t, params.beta as int),
            inst,
        )
        &&& next.strategy() == matched(next.regret())
        &&& next.cumulative() == discounted_sums(
            self.cumulative(),
            decay,
            decay,
            next.strategy(),
        )
        &&& next.updates() == t
        &&& next.params_view() == self.params_view()
    }

    fn update_regret(&mut self, rewards: &[i128]) -> (r: Result<(), LittleError>) {
        let t: usize = self.num_updates + 1;
        let positive_discount: i128 = DiscountParams::discount_factor(t, self.params.alpha);
        let negative_discount: i128 = DiscountParams::discount_factor(t, self.params.beta);
        let strategy_discount: i128 = DiscountParams::decay(t, self.params.gamma);
        let expected: i128 = dot(self.p.as_slice(), rewards);
        let inst: Vec<i128> = instantaneous_regret(rewards, expected);
        accumulate_discounted(
            &mut self.cumulative_regret,
            positive_discount,
            negative_discount,
            inst.as_slice(),
        );
        regret_match(self.cumulative_regret.as_slice(), &mut self.p);
        accumulate_discounted(
            &mut self.sum_p,
            strategy_discount,
            strategy_discount,
            self.p.as_slice(),
        );
        self.num_updates = t;
        proof {
            lemma_matched_is_simplex(self.cumulative_regret@);
            lemma_simplex_is_sampled(self.p@);
        }
        match build_sampler(&self.p) {
            Ok(dist) => {
                self.dist = dist;
                Ok(())
            },
            Err(e) => Err(LittleError::Weights(e)),
        }
    }

    fn num_updates(&self) -> (n: usize) {
        self.num_updates
    }

    fn current_strategy(&self) -> (s: &[i128]) {
        self.p.as_slice()
    }

    fn cumulative_strategy(&self) -> (s: &[i128]) {
        self.sum_p.as_slice()
    }

    fn next_action(&self, rng: &mut ThreadRng) -> (a: usize) {
        sample_index(&self.dist, rng)
    }

    fn best_weight(&self) -> (w: Vec<i128>) {
        proof {
            lemma_matched_is_simplex(self.sum_p@);
        }
        normalize_by_sum(self.sum_p.as_slice())
    }
}

/// Every update is counted, whatever the rewards: the update counter
/// grows by exactly 1, also where no regret is positive.
pub proof fn lemma_dcfr_counts_every_update(
    before: DiscountedRegretMatcher,
    rewards: Seq<i128>,
    after: DiscountedRegretMatcher,
)
    requires
        before.steps_to(rewards, after),
    ensures
        after.updates() == before.updates() + 1,
{
}

} // verus!
