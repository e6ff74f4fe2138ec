//! Linear CFR: new regrets and strategies are weighted by the iteration
//! number.

use vstd::prelude::*;
use rand::rngs::ThreadRng;
use crate::errors::LittleError;
use crate::fixed::MAX_LEN;
use crate::accumulate::{accumulate_weighted, instantaneous, instantaneous_regret, weighted_sums};
use crate::regret_minimizer::{
    dot, is_simplex, lemma_matched_is_simplex, lemma_simplex_is_sampled, lemma_uniform_fault,
    lemma_uniform_is_simplex, matched, normalize_by_sum, regret_match, uniform_weights, zero_seq,
    zeros, RegretMinimizer,
};
use crate::sampler::{build_sampler, sample_index, sampler_weights, Sampler};

verus! {

/// A regret minimizer implementing Linear CFR.
///
/// With `r` the instantaneous regret of the iteration `t`:
/// - regret: `R = R + t * r`;
/// - strategy: the regret, regret-matched;
/// - cumulative strategy: `X = X + t * x`.
#[derive(Clone, Debug)]
pub struct LinearCfrRegretMatcher {
    p: Vec<i128>,
    sum_p: Vec<i128>,
    cumulative_regret: Vec<i128>,
    dist: Sampler,
    num_updates: usize,
}

impl LinearCfrRegretMatcher {
    /// The cumulative regret of every action.
    pub closed spec fn regret(&self) -> Seq<i128> {
        self.cumulative_regret@
    }
}

impl RegretMinimizer for LinearCfrRegretMatcher {
    closed spec fn wf(&self) -> bool {
        &&& 0 < self.p@.len() <= MAX_LEN
        &&& self.sum_p@.len() == self.p@.len()
        &&& self.cumulative_regret@.len() == self.p@.len()
        &&& is_simplex(self.p@)
        &&& sampler_weights(self.dist) == self.p@
    }

    closed spec fn strategy(&self) -> Seq<i128> {
        self.p@
    }

    closed spec fn cumulative(&self) -> Seq<i128> {
        self.sum_p@
    }

    closed spec fn updates(&self) -> nat {
        self.num_updates as nat
    }

    proof fn lemma_wf_lengths(&self) {
    }

    fn new(num_experts: usize) -> (r: Result<Self, LittleError>)
        ensures
            r is Ok ==> r->Ok_0.regret() == zero_seq(num_experts as nat),
    {
        let p = uniform_weights(num_experts);
        proof {
            lemma_uniform_fault(num_experts as nat);
            if num_experts > 0 {
                lemma_uniform_is_simplex(num_experts as nat);
            }
        }
        match build_sampler(&p) {
            Ok(dist) => Ok(
                Self {
                    p,
                    sum_p: zeros(num_experts),
                    cumulative_regret: zeros(num_experts),
                    dist,
                    num_updates: 0,
                },
            ),
            Err(e) => Err(LittleError::Weights(e)),
        }
    }

    open spec fn steps_to(&self, rewards: Seq<i128>, next: Self) -> bool {
        let t = (self.updates() + 1) as int;
        let inst = instantaneous(self.strategy(), rewards);
        &&& next.regret() == weighted_sums(self.regret(), t, inst)
        &&& next.strategy() == matched(next.regret())
        &&& next.cumulative() == weighted_sums(
            self.cumulative(),
            t,
            next.strategy(),
        )
        &&& next.updates() == t
    }

    fn update_regret(&mut self, rewards: &[i128]) -> (r: Result<(), LittleError>) {
        let t: usize = self.num_updates + 1;
        let expected: i128 = dot(self.p.as_slice(), rewards);
        let inst: Vec<i128> = instantaneous_regret(rewards, expected);
        accumulate_weighted(&mut self.cumulative_regret, t, inst.as_slice());
        regret_match(self.cumulative_regret.as_slice(), &mut self.p);
        accumulate_weighted(&mut self.sum_p, t, self.p.as_slice());
        self.num_updates = t;
        proof {
            lemma_matched_is_simplex(self.cumulative_regret@);
            lemma_simplex_is_sampled(self.p@);
        }
        match build_sampler(&self.p) {
            Ok(dist) => {
                self.dist = dist;
                Ok(())
            },
            Err(e) => Err(LittleError::Weights(e)),
        }
    }

    fn num_updates(&self) -> (n: usize) {
        self.num_updates
    }

    fn current_strategy(&self) -> (s: &[i128]) {
        self.p.as_slice()
    }

    fn cumulative_strategy(&self) -> (s: &[i128]) {
        self.sum_p.as_slice()
    }

    fn next_action(&self, rng: &mut ThreadRng) -> (a: usize) {
        sample_index(&self.dist, rng)
    }

    fn best_weight(&self) -> (w: Vec<i128>) {
        proof {
            lemma_matched_is_simplex(self.sum_p@);
        }
        normalize_by_sum(self.sum_p.as_slice())
    }
}

/// Every update is counted, whatever the rewards: the update counter
/// grows by exactly 1, also where no regret is positive.
pub proof fn lemma_linear_cfr_counts_every_update(
    before: LinearCfrRegretMatcher,
    rewards: Seq<i128>,
    after: LinearCfrRegretMatcher,
)
    requires
        before.steps_to(rewards, after),
    ensures
        after.updates() == before.updates() + 1,
{
}

} // verus!
