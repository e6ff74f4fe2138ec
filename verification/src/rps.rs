//! Self-play of two regret minimizers at rock-paper-scissors.
//!
//! The runner is always in one of two states: *updated*, with both buffers
//! of pending rewards at zero, or *accumulating*, with the payoffs of one
//! or more plays waiting to be handed to the minimizers.

use vstd::prelude::*;
use rand::rngs::ThreadRng;
use crate::errors::LittleError;
use crate::regret_matcher::RegretMatcher;
use crate::regret_minimizer::{
    add_assign, added, is_simplex, matched, uniform_seq, zero_seq, zeros, RegretMinimizer,
};

verus! {

/// The actions of rock-paper-scissors.
#[derive(Debug, Clone, Copy, PartialEq, Eq, Structural)]
pub enum RPSAction {
    /// Rock, action 0.
    Rock,
    /// Paper, action 1.
    Paper,
    /// Scissors, action 2.
    Scissors,
}

/// The reward of a win: 1.
pub const WIN: i128 = 0x1_0000_0000;

/// The reward of a loss: -1.
pub const LOSS: i128 = -0x1_0000_0000;

/// The reward of a draw: 0.
pub const DRAW: i128 = 0;

/// The action with the index `i`; an index beyond the last action stands
/// for the last action.
pub open spec fn action_of(i: int) -> RPSAction {
    if i <= 0 {
        RPSAction::Rock
    } else if i == 1 {
        RPSAction::Paper
    } else {
        RPSAction::Scissors
    }
}

/// What rock, paper and scissors each earn against the action `a`.
pub open spec fn reward_of(a: RPSAction) -> Seq<i128> {
    match a {
        RPSAction::Rock => seq![DRAW, WIN, LOSS],
        RPSAction::Paper => seq![LOSS, DRAW, WIN],
        RPSAction::Scissors => seq![WIN, LOSS, DRAW],
    }
}

impl RPSAction {
    /// The rewards that rock, paper and scissors earn against this action.
    pub fn to_reward(self) -> (r: Vec<i128>)
        ensures
            r@ == reward_of(self),
    {
        let r = match self {
            RPSAction::Rock => vec![DRAW, WIN, LOSS],
            RPSAction::Paper => vec![LOSS, DRAW, WIN],
            RPSAction::Scissors => vec![WIN, LOSS, DRAW],
        };
        assert(r@ =~= reward_of(self));
        r
    }
}

impl From<usize> for RPSAction {
    /// The action with the index `i`, clamped to the last action.
    fn from(i: usize) -> (a: Self) {
        if i == 0 {
            RPSAction::Rock
        } else if i == 1 {
            RPSAction::Paper
        } else {
            RPSAction::Scissors
        }
    }
}

impl vstd::std_specs::convert::FromSpecImpl<usize> for RPSAction {
    open spec fn obeys_from_spec() -> bool {
        true
    }

    open spec fn from_spec(i: usize) -> Self {
        action_of(i as int)
    }
}

/// Two regret minimizers playing rock-paper-scissors against each other.
#[derive(Clone, Debug)]
pub struct RPSRunnerGeneric<M: RegretMinimizer> {
    /// The minimizer of the first player.
    pub matcher_one: M,
    /// The minimizer of the second player.
    pub matcher_two: M,
    pending_reward_one: Vec<i128>,
    pending_reward_two: Vec<i128>,
}

/// The runner over the plain regret matcher.
pub type RPSRunner = RPSRunnerGeneric<RegretMatcher>;

impl<M: RegretMinimizer> RPSRunnerGeneric<M> {
    /// The minimizer of the first player.
    pub closed spec fn one(&self) -> M {
        self.matcher_one
    }

    /// The minimizer of the second player.
    pub closed spec fn two(&self) -> M {
        self.matcher_two
    }

    /// The rewards waiting for the first player.
    pub closed spec fn pending_one(&self) -> Seq<i128> {
        self.pending_reward_one@
    }

    /// The rewards waiting for the second player.
    pub closed spec fn pending_two(&self) -> Seq<i128> {
        self.pending_reward_two@
    }

    /// Both minimizers are well formed and play the three actions, and
    /// both buffers hold one entry for each action.
    pub open spec fn wf(&self) -> bool {
        &&& self.one().wf()
        &&& self.two().wf()
        &&& self.one().strategy().len() == 3
        &&& self.two().strategy().len() == 3
        &&& self.pending_one().len() == 3
        &&& self.pending_two().len() == 3
    }

    /// No reward is waiting: the state after construction and after
    /// every update.
    pub open spec fn is_updated(&self) -> bool {
        &&& self.pending_one() == zero_seq(3)
        &&& self.pending_two() == zero_seq(3)
    }

    /// Creates a runner with two fresh minimizers over the three actions.
    pub fn new() -> (r: Result<Self, LittleError>)
        ensures
            r is Ok,
            r->Ok_0.wf(),
            r->Ok_0.is_updated(),
            r->Ok_0.one().strategy() == uniform_seq(3),
            r->Ok_0.two().strategy() == uniform_seq(3),
            r->Ok_0.one().cumulative() == zero_seq(3),
            r->Ok_0.two().cumulative() == zero_seq(3),
            r->Ok_0.one().updates() == 0,
            r->Ok_0.two().updates() == 0,
    {
        let matcher_one = match M::new(3) {
            Ok(m) => m,
            Err(e) => {
                return Err(e);
            },
        };
        let matcher_two = match M::new(3) {
            Ok(m) => m,
            Err(e) => {
                return Err(e);
            },
        };
        Ok(
            Self {
                matcher_one,
                matcher_two,
                pending_reward_one: zeros(3),
                pending_reward_two: zeros(3),
            },
        )
    }

    /// Adds the payoffs of one play to the pending rewards: the first
    /// player played the action `a1`, the second `a2`. Each player is
    /// credited with what every action would have earned against the
    /// other's action.
    pub fn record(&mut self, a1: usize, a2: usize)
        ensures
            final(self).one() == old(self).one(),
            final(self).two() == old(self).two(),
            final(self).pending_one() == added(
                old(self).pending_one(),
                reward_of(action_of(a2 as int)),
            ),
            final(self).pending_two() == added(
                old(self).pending_two(),
                reward_of(action_of(a1 as int)),
            ),
    {
        let r1 = RPSAction::from(a2).to_reward();
        let r2 = RPSAction::from(a1).to_reward();
        add_assign(&mut self.pending_reward_one, r1.as_slice());
        add_assign(&mut self.pending_reward_two, r2.as_slice());
    }

    /// Plays once: samples an action from each minimizer and records the
    /// payoffs. Whatever was sampled, the state is the one that `record`
    /// gives for two actions that their players hold possible.
    pub fn run_one(&mut self, rng: &mut ThreadRng)
        requires
            old(self).wf(),
        ensures
            final(self).wf(),
            final(self).one() == old(self).one(),
            final(self).two() == old(self).two(),
            exists|a1: int, a2: int|
                {
                    &&& 0 <= a1 < 3
                    &&& 0 <= a2 < 3
                    &&& old(self).one().strategy()[a1] > 0
                    &&& old(self).two().strategy()[a2] > 0
                    &&& final(self).pending_one() == added(
                        old(self).pending_one(),
                        #[trigger] reward_of(action_of(a2)),
                    )
                    &&& final(self).pending_two() == added(
                        old(self).pending_two(),
                        #[trigger] reward_of(action_of(a1)),
                    )
                },
    {
        let a1: usize = self.matcher_one.next_action(rng);
        let a2: usize = self.matcher_two.next_action(rng);
        self.record(a1, a2);
    }

    /// Hands each minimizer its pending rewards and clears both buffers.
    pub fn update_regret(&mut self) -> (r: Result<(), LittleError>)
        requires
            old(self).wf(),
            old(self).one().updates() < usize::MAX,
            old(self).two().updates() < usize::MAX,
        ensures
            r is Ok,
            final(self).wf(),
            final(self).is_updated(),
            old(self).one().steps_to(old(self).pending_one(), final(self).one()),
            old(self).two().steps_to(old(self).pending_two(), final(self).two()),
            is_simplex(final(self).one().strategy()),
            is_simplex(final(self).two().strategy()),
            final(self).one().updates() <= old(self).one().updates() + 1,
            final(self).two().updates() <= old(self).two().updates() + 1,
    {
        match self.matcher_one.update_regret(self.pending_reward_one.as_slice()) {
            Ok(_) => {},
            Err(e) => {
                return Err(e);
            },
        }
        match self.matcher_two.update_regret(self.pending_reward_two.as_slice()) {
            Ok(_) => {},
            Err(e) => {
                return Err(e);
            },
        }
        self.pending_reward_one = zeros(3);
        self.pending_reward_two = zeros(3);
        Ok(())
    }

    /// The average strategy of the first player.
    pub fn best_weight(&self) -> (w: Vec<i128>)
        requires
            self.wf(),
        ensures
            w@ == matched(self.one().cumulative()),
            w@.len() == 3,
            is_simplex(w@),
    {
        self.matcher_one.best_weight()
    }

    /// The average strategy of the second player.
    pub fn opponent_best_weight(&self) -> (w: Vec<i128>)
        requires
            self.wf(),
        ensures
            w@ == matched(self.two().cumulative()),
            w@.len() == 3,
            is_simplex(w@),
    {
        self.matcher_two.best_weight()
    }

    /// The rewards waiting for the first player.
    pub fn pending_reward_one(&self) -> (s: &[i128])
        ensures
            s@ == self.pending_one(),
    {
        self.pending_reward_one.as_slice()
    }

    /// The rewards waiting for the second player.
    pub fn pending_reward_two(&self) -> (s: &[i128])
        ensures
            s@ == self.pending_two(),
    {
        self.pending_reward_two.as_slice()
    }
}

impl<M: RegretMinimizer> Default for RPSRunnerGeneric<M> {
    /// Creates a runner as `new` does.
    fn default() -> (r: Self)
        ensures
            r.wf(),
            r.is_updated(),
            r.one().strategy() == uniform_seq(3),
            r.two().strategy() == uniform_seq(3),
            r.one().cumulative() == zero_seq(3),
            r.two().cumulative() == zero_seq(3),
            r.one().updates() == 0,
            r.two().updates() == 0,
    {
        Self::new().unwrap()
    }
}

} // verus!
