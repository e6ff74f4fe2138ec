//! CFR+: cumulative regrets are floored at zero after every update.

use vstd::prelude::*;
use rand::rngs::ThreadRng;
use crate::accumulate::{accumulate_plus, instantaneous, instantaneous_regret, plus_sums};
use crate::errors::LittleError;
use crate::fixed::MAX_LEN;
use crate::regret_minimizer::{
    add_assign, added, dot, has_positive, lemma_matched_is_simplex, lemma_simplex_is_sampled,
    lemma_uniform_fault, lemma_uniform_is_simplex, matched, normalize_by_sum, positive_sum,
    regret_match, uniform_weights, zero_seq, zeros, RegretMinimizer,
};
use crate::sampler::{build_sampler, sample_index, sampler_weights, weights_fault, Sampler};

verus! {

/// A regret minimizer implementing CFR+.
///
/// With `r` the instantaneous regret of an iteration:
/// - regret: `R = max(0, R + r)`;
/// - strategy: the regret, regret-matched;
/// - cumulative strategy: `X = X + x`.
///
/// Where no regret is positive after an update, the minimizer starts
/// again: the strategy is uniform, the regrets and the update count are 0,
/// and the cumulative strategy stays as it was.
#[derive(Clone, Debug)]
pub struct CfrPlusRegretMatcher {
    p: Vec<i128>,
    sum_p: Vec<i128>,
    cumulative_regret: Vec<i128>,
    dist: Sampler,
    num_updates: usize,
}

impl CfrPlusRegretMatcher {
    /// The cumulative regret of every action.
    pub closed spec fn regret(&self) -> Seq<i128> {
        self.cumulative_regret@
    }

    /// Creates a minimizer that starts from the strategy `p`. Fails
    /// exactly when no sampler can be built from `p`, with the fault that
    /// `weights_fault` names.
    pub fn new_from_p(p: Vec<i128>) -> (r: Result<Self, LittleError>)
        ensures
            match r {
                Ok(m) => {
                    &&& weights_fault(p@) is None
                    &&& m.wf()
                    &&& m.strategy() == p@
                    &&& m.cumulative() == zero_seq(p@.len())
                    &&& m.regret() == zero_seq(p@.len())
                    &&& m.updates() == 0
                },
                Err(e) => weights_fault(p@) is Some && e == LittleError::Weights(
                    weights_fault(p@)->Some_0,
                ),
            },
    {
        let num_experts: usize = p.len();
        match build_sampler(&p) {
            Ok(dist) => Ok(
                Self {
                    p,
                    sum_p: zeros(num_experts),
                    cumulative_regret: zeros(num_experts),
                    dist,
                    num_updates: 0,
                },
            ),
            Err(e) => Err(LittleError::Weights(e)),
        }
    }
}

impl RegretMinimizer for CfrPlusRegretMatcher {
    closed spec fn wf(&self) -> bool {
        &&& 0 < self.p@.len() <= MAX_LEN
        &&& self.sum_p@.len() == self.p@.len()
        &&& self.cumulative_regret@.len() == self.p@.len()
        &&& sampler_weights(self.dist) == self.p@
    }

    closed spec fn strategy(&self) -> Seq<i128> {
        self.p@
    }

    closed spec fn cumulative(&self) -> Seq<i128> {
        self.sum_p@
    }

    closed spec fn updates(&self) -> nat {
        self.num_updates as nat
    }

    proof fn lemma_wf_lengths(&self) {
    }

    fn new(num_experts: usize) -> (r: Result<Self, LittleError>)
        ensures
            r is Ok ==> r->Ok_0.regret() == zero_seq(num_experts as nat),
    {
        let p = uniform_weights(num_experts);
        proof {
            lemma_uniform_fault(num_experts as nat);
            if num_experts > 0 {
                lemma_uniform_is_simplex(num_experts as nat);
            }
        }
        Self::new_from_p(p)
    }

    open spec fn steps_to(&self, rewards: Seq<i128>, next: Self) -> bool {
        let regret = plus_sums(self.regret(), instantaneous(self.strategy(), rewards));
        &&& next.strategy() == matched(regret)
        &&& if has_positive(regret) {
            &&& next.regret() == regret
            &&& next.cumulative() == added(self.cumulative(), next.strategy())
            &&& next.updates() == self.updates() + 1
        } else {
            &&& next.regret() == zero_seq(self.regret().len())
            &&& next.cumulative() == self.cumulative()
            &&& next.updates() == 0
        }
    }

    fn update_regret(&mut self, rewards: &[i128]) -> (r: Result<(), LittleError>) {
        let num_experts: usize = self.p.len();
        let expected: i128 = dot(self.p.as_slice(), rewards);
        let inst: Vec<i128> = instantaneous_regret(rewards, expected);
        accumulate_plus(&mut self.cumulative_regret, inst.as_slice());
        let regret_sum: i128 = positive_sum(self.cumulative_regret.as_slice());
        regret_match(self.cumulative_regret.as_slice(), &mut self.p);
        proof {
            lemma_matched_is_simplex(self.cumulative_regret@);
            lemma_simplex_is_sampled(self.p@);
        }
        if regret_sum <= 0 {
            self.cumulative_regret = zeros(num_experts);
            self.num_updates = 0;
        } else {
            add_assign(&mut self.sum_p, self.p.as_slice());
            self.num_updates = self.num_updates + 1;
        }
        match build_sampler(&self.p) {
            Ok(dist) => {
                self.dist = dist;
                Ok(())
            },
            Err(e) => Err(LittleError::Weights(e)),
        }
    }

    fn num_updates(&self) -> (n: usize) {
        self.num_updates
    }

    fn current_strategy(&self) -> (s: &[i128]) {
        self.p.as_slice()
    }

    fn cumulative_strategy(&self) -> (s: &[i128]) {
        self.sum_p.as_slice()
    }

    fn next_action(&self, rng: &mut ThreadRng) -> (a: usize) {
        sample_index(&self.dist, rng)
    }

    fn best_weight(&self) -> (w: Vec<i128>) {
        proof {
            lemma_matched_is_simplex(self.sum_p@);
        }
        normalize_by_sum(self.sum_p.as_slice())
    }
}

/// The regrets that an update on `rewards` derives the next strategy
/// from: the old regrets with the instantaneous regret added, floored at
/// zero.
pub open spec fn cfr_plus_regrets(before: CfrPlusRegretMatcher, rewards: Seq<i128>) -> Seq<i128> {
    plus_sums(before.regret(), instantaneous(before.strategy(), rewards))
}

/// An update is counted where some regret is positive after it; where
/// none is, and only there, the counter goes back to 0.
pub proof fn lemma_cfr_plus_counter(
    before: CfrPlusRegretMatcher,
    rewards: Seq<i128>,
    after: CfrPlusRegretMatcher,
)
    requires
        before.steps_to(rewards, after),
    ensures
        has_positive(cfr_plus_regrets(before, rewards)) ==> after.updates() == before.updates()
            + 1,
        !has_positive(cfr_plus_regrets(before, rewards)) <==> after.updates() == 0,
{
}

} // verus!
