//! The plain regret matcher: the regret of an action is what it has earned
//! in total beyond what the matcher has earned, floored at zero only when
//! the strategy is derived.

use vstd::prelude::*;
use rand::rngs::ThreadRng;
use crate::errors::LittleError;
use crate::fixed::{fx_add, sum_of, MAX_LEN};
use crate::accumulate::{instantaneous_regret, regrets_against};
use crate::regret_minimizer::{
    add_assign, added, dot, dot_of, has_positive, lemma_matched_is_simplex,
    lemma_simplex_is_sampled, lemma_uniform_fault, lemma_uniform_is_simplex, matched,
    normalize_by_sum, positive_sum, regret_match, uniform_weights, zero_seq, zeros,
    RegretMinimizer,
};
use crate::sampler::{build_sampler, sample_index, sampler_weights, weights_fault, Sampler};

verus! {

/// A regret matcher in the cumulative-reward form.
///
/// It keeps the total reward of every action and the total reward it
/// expected for itself. The strategy is the difference of the two,
/// regret-matched; the difference itself is kept unclipped. Where no
/// action has a positive regret after an update, the matcher forgets its
/// rewards and its update count and starts again from the uniform
/// strategy; the cumulative strategy stays.
#[derive(Clone, Debug)]
pub struct RegretMatcher {
    p: Vec<i128>,
    sum_p: Vec<i128>,
    expert_reward: Vec<i128>,
    cumulative_reward: i128,
    dist: Sampler,
    num_updates: usize,
}

impl RegretMatcher {
    /// The total reward of every action.
    pub closed spec fn earned(&self) -> Seq<i128> {
        self.expert_reward@
    }

    /// The total reward the matcher expected under its own strategies.
    pub closed spec fn expected(&self) -> int {
        self.cumulative_reward as int
    }

    /// Creates a matcher that starts from the strategy `p`. Fails
    /// exactly when no sampler can be built from `p`, with the fault that
    /// `weights_fault` names.
    pub fn new_from_p(p: Vec<i128>) -> (r: Result<Self, LittleError>)
        ensures
            match r {
                Ok(m) => {
                    &&& weights_fault(p@) is None
                    &&& m.wf()
                    &&& m.strategy() == p@
                    &&& m.cumulative() == zero_seq(p@.len())
                    &&& m.earned() == zero_seq(p@.len())
                    &&& m.expected() == 0
                    &&& m.updates() == 0
                },
                Err(e) => weights_fault(p@) is Some && e == LittleError::Weights(
                    weights_fault(p@)->Some_0,
                ),
            },
    {
        let num_experts: usize = p.len();
        match build_sampler(&p) {
            Ok(dist) => Ok(
                Self {
                    p,
                    sum_p: zeros(num_experts),
                    cumulative_reward: 0,
                    expert_reward: zeros(num_experts),
                    dist,
                    num_updates: 0,
                },
            ),
            Err(e) => Err(LittleError::Weights(e)),
        }
    }
}

impl RegretMinimizer for RegretMatcher {
    closed spec fn wf(&self) -> bool {
        &&& 0 < self.p@.len() <= MAX_LEN
        &&& self.sum_p@.len() == self.p@.len()
        &&& self.expert_reward@.len() == self.p@.len()
        &&& sampler_weights(self.dist) == self.p@
    }

    closed spec fn strategy(&self) -> Seq<i128> {
        self.p@
    }

    closed spec fn cumulative(&self) -> Seq<i128> {
        self.sum_p@
    }

    closed spec fn updates(&self) -> nat {
        self.num_updates as nat
    }

    proof fn lemma_wf_lengths(&self) {
    }

    fn new(num_experts: usize) -> (r: Result<Self, LittleError>)
        ensures
            r is Ok ==> r->Ok_0.earned() == zero_seq(num_experts as nat),
            r is Ok ==> r->Ok_0.expected() == 0,
    {
        let p = uniform_weights(num_experts);
        proof {
            lemma_uniform_fault(num_experts as nat);
            if num_experts > 0 {
                lemma_uniform_is_simplex(num_experts as nat);
            }
        }
        Self::new_from_p(p)
    }

    open spec fn steps_to(&self, rewards: Seq<i128>, next: Self) -> bool {
        let expected = sum_of(self.expected(), dot_of(self.strategy(), rewards));
        let earned = added(self.earned(), rewards);
        let regret = regrets_against(earned, expected);
        &&& next.strategy() == matched(regret)
        &&& if has_positive(regret) {
            &&& next.earned() == earned
            &&& next.expected() == expected
            &&& next.cumulative() == added(self.cumulative(), next.strategy())
            &&& next.updates() == self.updates() + 1
        } else {
            &&& next.earned() == zero_seq(self.earned().len())
            &&& next.expected() == 0
            &&& next.cumulative() == self.cumulative()
            &&& next.updates() == 0
        }
    }

    fn update_regret(&mut self, rewards: &[i128]) -> (r: Result<(), LittleError>) {
        let num_experts: usize = self.p.len();
        let expected: i128 = dot(self.p.as_slice(), rewards);
        self.cumulative_reward = fx_add(self.cumulative_reward, expected);
        add_assign(&mut self.expert_reward, rewards);
        let regret: Vec<i128> = instantaneous_regret(
            self.expert_reward.as_slice(),
            self.cumulative_reward,
        );
        let regret_sum: i128 = positive_sum(regret.as_slice());
        regret_match(regret.as_slice(), &mut self.p);
        if regret_sum <= 0 {
            self.cumulative_reward = 0;
            self.expert_reward = zeros(num_experts);
            self.num_updates = 0;
        } else {
            add_assign(&mut self.sum_p, self.p.as_slice());
            self.num_updates = self.num_updates + 1;
        }
        proof {
            lemma_matched_is_simplex(regret@);
            lemma_simplex_is_sampled(self.p@);
        }
        match build_sampler(&self.p) {
            Ok(dist) => {
                self.dist = dist;
                Ok(())
            },
            Err(e) => Err(LittleError::Weights(e)),
        }
    }

    fn num_updates(&self) -> (n: usize) {
        self.num_updates
    }

    fn current_strategy(&self) -> (s: &[i128]) {
        self.p.as_slice()
    }

    fn cumulative_strategy(&self) -> (s: &[i128]) {
        self.sum_p.as_slice()
    }

    fn next_action(&self, rng: &mut ThreadRng) -> (a: usize) {
        sample_index(&self.dist, rng)
    }

    fn best_weight(&self) -> (w: Vec<i128>) {
        proof {
            lemma_matched_is_simplex(self.sum_p@);
        }
        normalize_by_sum(self.sum_p.as_slice())
    }
}

/// The regrets that an update on `rewards` derives the next strategy
/// from: what every action has earned beyond the matcher.
pub open spec fn matcher_regrets(before: RegretMatcher, rewards: Seq<i128>) -> Seq<i128> {
    regrets_against(
        added(before.earned(), rewards),
        sum_of(before.expected(), dot_of(before.strategy(), rewards)),
    )
}

/// An update is counted where some regret is positive after it; where
/// none is, and only there, the counter goes back to 0.
pub proof fn lemma_regret_matcher_counter(
    before: RegretMatcher,
    rewards: Seq<i128>,
    after: RegretMatcher,
)
    requires
        before.steps_to(rewards, after),
    ensures
        has_positive(matcher_regrets(before, rewards)) ==> after.updates() == before.updates()
            + 1,
        !has_positive(matcher_regrets(before, rewards)) <==> after.updates() == 0,
{
}

} // verus!
