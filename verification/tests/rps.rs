use little_sorry::cfr_plus::CfrPlusRegretMatcher;
use little_sorry::dcfr::DiscountedRegretMatcher;
use little_sorry::fixed::ONE;
use little_sorry::rps::{RPSAction, RPSRunner, RPSRunnerGeneric, DRAW, LOSS, WIN};
use little_sorry::RegretMinimizer;

/// Tests the Rock-Paper-Scissors runner.
#[test]
fn test_rps() {
    let mut runner = RPSRunner::new().unwrap();
    let mut rng = rand::rng();
    for _ in 0..100 {
        runner.run_one(&mut rng);
        runner.update_regret().unwrap();
    }
    println!("{:?}", runner.best_weight());
}

#[test]
fn payoffs_of_rock_paper_scissors() {
    assert_eq!((WIN, DRAW, LOSS), (ONE, 0, -ONE));
    assert_eq!(RPSAction::Rock.to_reward(), vec![0, ONE, -ONE]);
    assert_eq!(RPSAction::Paper.to_reward(), vec![-ONE, 0, ONE]);
    assert_eq!(RPSAction::Scissors.to_reward(), vec![ONE, -ONE, 0]);
}

#[test]
fn action_indices_are_clamped() {
    assert_eq!(RPSAction::from(0), RPSAction::Rock);
    assert_eq!(RPSAction::from(1), RPSAction::Paper);
    assert_eq!(RPSAction::from(2), RPSAction::Scissors);
    assert_eq!(RPSAction::from(3), RPSAction::Scissors);
    assert_eq!(RPSAction::from(usize::MAX), RPSAction::Scissors);
}

#[test]
fn a_new_runner_has_nothing_pending() {
    let runner = RPSRunner::new().unwrap();
    assert_eq!(runner.pending_reward_one(), &[0, 0, 0]);
    assert_eq!(runner.pending_reward_two(), &[0, 0, 0]);
    assert_eq!(runner.matcher_one.num_updates(), 0);
    assert_eq!(runner.matcher_two.num_updates(), 0);
    let u = 1431655765;
    assert_eq!(runner.best_weight(), vec![u + 1, u, u]);
    assert_eq!(runner.opponent_best_weight(), vec![u + 1, u, u]);
    let other: RPSRunnerGeneric<DiscountedRegretMatcher> = Default::default();
    assert_eq!(other.pending_reward_one(), &[0, 0, 0]);
    assert_eq!(other.matcher_one.current_strategy(), &[u + 1, u, u]);
}

#[test]
fn record_credits_each_player_against_the_other() {
    let mut runner = RPSRunnerGeneric::<CfrPlusRegretMatcher>::new().unwrap();
    // first player: rock, second player: paper
    runner.record(0, 1);
    assert_eq!(runner.pending_reward_one(), &[-ONE, 0, ONE]);
    assert_eq!(runner.pending_reward_two(), &[0, ONE, -ONE]);
    // plays accumulate until the next update
    runner.record(2, 2);
    assert_eq!(runner.pending_reward_one(), &[0, -ONE, ONE]);
    assert_eq!(runner.pending_reward_two(), &[ONE, 0, -ONE]);
    runner.record(7, 0);
    assert_eq!(runner.pending_reward_one(), &[0, 0, 0]);
    assert_eq!(runner.pending_reward_two(), &[2 * ONE, -ONE, -ONE]);
}

#[test]
fn update_hands_over_the_pending_rewards_and_clears_them() {
    let mut runner = RPSRunnerGeneric::<CfrPlusRegretMatcher>::new().unwrap();
    runner.record(0, 1);
    runner.update_regret().unwrap();
    assert_eq!(runner.pending_reward_one(), &[0, 0, 0]);
    assert_eq!(runner.pending_reward_two(), &[0, 0, 0]);
    // Against paper scissors has the regret; the uniform strategy expects
    // one unit less than 0, which leaves paper a regret of one unit.
    assert_eq!(runner.matcher_one.current_strategy(), &[0, 1, ONE - 1]);
    // Against rock only paper has a regret.
    assert_eq!(runner.matcher_two.current_strategy(), &[0, ONE, 0]);
    assert_eq!(runner.matcher_one.num_updates(), 1);
    assert_eq!(runner.matcher_two.num_updates(), 1);
    assert_eq!(runner.best_weight(), vec![0, 1, ONE - 1]);
    assert_eq!(runner.opponent_best_weight(), vec![0, ONE, 0]);

    let mut alone = CfrPlusRegretMatcher::new(3).unwrap();
    alone.update_regret(&[-ONE, 0, ONE]).unwrap();
    assert_eq!(alone.current_strategy(), runner.matcher_one.current_strategy());
    assert_eq!(alone.cumulative_strategy(), runner.matcher_one.cumulative_strategy());
}

#[test]
fn run_one_records_one_play() {
    let mut runner = RPSRunner::new().unwrap();
    let mut rng = rand::rng();
    for plays in 1..=20i128 {
        runner.run_one(&mut rng);
        for pending in [runner.pending_reward_one(), runner.pending_reward_two()] {
            // every play adds one win, one draw and one loss
            assert_eq!(pending.iter().sum::<i128>(), 0);
            assert_eq!(pending.iter().map(|v| v.abs()).sum::<i128>() % (2 * ONE), 0);
            assert!(pending.iter().all(|v| v % ONE == 0 && v.abs() <= plays * ONE));
        }
        assert_eq!(runner.matcher_one.num_updates(), 0);
    }
    runner.update_regret().unwrap();
    assert_eq!(runner.pending_reward_one(), &[0, 0, 0]);
    assert_eq!(runner.pending_reward_two(), &[0, 0, 0]);
}

#[test]
fn a_batch_of_plays_is_one_update() {
    let mut runner = RPSRunnerGeneric::<DiscountedRegretMatcher>::new().unwrap();
    let mut rng = rand::rng();
    for i in 0..500 {
        runner.run_one(&mut rng);
        if i % 50 == 49 {
            runner.update_regret().unwrap();
        }
    }
    assert_eq!(runner.matcher_one.num_updates(), 10);
    assert_eq!(runner.matcher_two.num_updates(), 10);
}
