//! Predictive CFR+: regrets floored at zero, the next strategy derived from
//! a one-step-ahead prediction of the regrets, and a cumulative strategy
//! weighted by the square of the iteration number.

use vstd::prelude::*;
use rand::rngs::ThreadRng;
use crate::errors::LittleError;
use crate::fixed::MAX_LEN;
use crate::accumulate::{
    accumulate_plus, accumulate_squared, instantaneous, instantaneous_regret, plus_sums,
    weighted_sums,
};
use crate::regret_minimizer::{
    dot, is_simplex, lemma_matched_is_simplex, lemma_simplex_is_sampled, lemma_uniform_fault,
    lemma_uniform_is_simplex, matched, normalize_by_sum, regret_match, uniform_weights, zero_seq,
    zeros, RegretMinimizer,
};
use crate::sampler::{build_sampler, sample_index, sampler_weights, Sampler};

verus! {

/// A regret minimizer implementing PCFR+.
///
/// With `r` the instantaneous regret of the iteration `t`:
/// - regret: `R = max(0, R + r)`;
/// - predicted regret: `max(0, R + r)`, with `r` as its own prediction;
/// - strategy: the predicted regret, regret-matched;
/// - cumulative strategy: `X = X + t * t * x`.
#[derive(Clone, Debug)]
pub struct PcfrPlusRegretMatcher {
    p: Vec<i128>,
    sum_p: Vec<i128>,
    cumulative_regret: Vec<i128>,
    last_instantaneous_regret: Vec<i128>,
    dist: Sampler,
    num_updates: usize,
}

impl PcfrPlusRegretMatcher {
    /// The cumulative regret of every action.
    pub closed spec fn regret(&self) -> Seq<i128> {
        self.cumulative_regret@
    }

    /// The instantaneous regret of the last update.
    pub closed spec fn last_regret(&self) -> Seq<i128> {
        self.last_instantaneous_regret@
    }
}

impl RegretMinimizer for PcfrPlusRegretMatcher {
    closed spec fn wf(&self) -> bool {
        &&& 0 < self.p@.len() <= MAX_LEN
        &&& self.sum_p@.len() == self.p@.len()
        &&& self.cumulative_regret@.len() == self.p@.len()
        &&& self.last_instantaneous_regret@.len() == self.p@.len()
        &&& is_simplex(self.p@)
        &&& sampler_weights(self.dist) == self.p@
    }

    closed spec fn strategy(&self) -> Seq<i128> {
        self.p@
    }

    closed spec fn cumulative(&self) -> Seq<i128> {
        self.sum_p@
    }

    closed spec fn updates(&self) -> nat {
        self.num_updates as nat
    }

    proof fn lemma_wf_lengths(&self) {
    }

    fn new(num_experts: usize) -> (r: Result<Self, LittleError>)
        ensures
            r is Ok ==> r->Ok_0.regret() == zero_seq(num_experts as nat),
            r is Ok ==> r->Ok_0.last_regret() == zero_seq(num_experts as nat),
    {
        let p = uniform_weights(num_experts);
        proof {
            lemma_uniform_fault(num_experts as nat);
            if num_experts > 0 {
                lemma_uniform_is_simplex(num_experts as nat);
            }
        }
        match build_sampler(&p) {
            Ok(dist) => Ok(
                Self {
                    p,
                    sum_p: zeros(num_experts),
                    cumulative_regret: zeros(num_experts),
                    last_instantaneous_regret: zeros(num_experts),
                    dist,
                    num_updates: 0,
                },
            ),
            Err(e) => Err(LittleError::Weights(e)),
        }
    }

    open spec fn steps_to(&self, rewards: Seq<i128>, next: Self) -> bool {
        let t = (self.updates() + 1) as int;
        let inst = instantaneous(self.strategy(), rewards);
        let regret = plus_sums(self.regret(), inst);
        &&& next.regret() == regret
        &&& next.last_regret() == inst
        &&& next.strategy() == matched(plus_sums(regret, inst))
        &&& next.cumulative() == weighted_sums(
            self.cumulative(),
            t * t,
            next.strategy(),
        )
        &&& next.updates() == t
    }

    fn update_regret(&mut self, rewards: &[i128]) -> (r: Result<(), LittleError>) {
        let t: usize = self.num_updates + 1;
        let expected: i128 = dot(self.p.as_slice(), rewards);
        let inst: Vec<i128> = instantaneous_regret(rewards, expected);
        accumulate_plus(&mut self.cumulative_regret, inst.as_slice());
        let mut predicted: Vec<i128> = self.cumulative_regret.clone();
        accumulate_plus(&mut predicted, inst.as_slice());
        regret_match(predicted.as_slice(), &mut self.p);
        accumulate_squared(&mut self.sum_p, t, self.p.as_slice());
        self.last_instantaneous_regret = inst;
        self.num_updates = t;
        proof {
            lemma_matched_is_simplex(predicted@);
            lemma_simplex_is_sampled(self.p@);
        }
        match build_sampler(&self.p) {
            Ok(dist) => {
                self.dist = dist;
                Ok(())
            },
            Err(e) => Err(LittleError::Weights(e)),
        }
    }

    fn num_updates(&self) -> (n: usize) {
        self.num_updates
    }

    fn current_strategy(&self) -> (s: &[i128]) {
        self.p.as_slice()
    }

    fn cumulative_strategy(&self) -> (s: &[i128]) {
        self.sum_p.as_slice()
    }

    fn next_action(&self, rng: &mut ThreadRng) -> (a: usize) {
        sample_index(&self.dist, rng)
    }

    fn best_weight(&self) -> (w: Vec<i128>) {
        proof {
            lemma_matched_is_simplex(self.sum_p@);
        }
        normalize_by_sum(self.sum_p.as_slice())
    }
}

/// Every update is counted, whatever the rewards: the update counter
/// grows by exactly 1, also where no regret is positive.
pub proof fn lemma_pcfr_plus_counts_every_update(
    before: PcfrPlusRegretMatcher,
    rewards: Seq<i128>,
    after: PcfrPlusRegretMatcher,
)
    requires
        before.steps_to(rewards, after),
    ensures
        after.updates() == before.updates() + 1,
{
}

} // verus!
