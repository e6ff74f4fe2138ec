use little_sorry::cfr_plus::CfrPlusRegretMatcher;
use little_sorry::dcfr::DiscountedRegretMatcher;
use little_sorry::dcfr_plus::DcfrPlusRegretMatcher;
use little_sorry::fixed::ONE;
use little_sorry::linear_cfr::LinearCfrRegretMatcher;
use little_sorry::pcfr_plus::PcfrPlusRegretMatcher;
use little_sorry::pdcfr_plus::PdcfrPlusRegretMatcher;
use little_sorry::{RegretMatcher, RegretMinimizer};

fn reward_rounds() -> Vec<Vec<i128>> {
    vec![
        vec![ONE, ONE / 2, -ONE],
        vec![-ONE, ONE, ONE / 4],
        vec![1431655765, -2147483648, 2 * ONE],
    ]
}

fn run_rounds<M: RegretMinimizer>(rm: &mut M) -> Vec<(Vec<i128>, Vec<i128>, usize, Vec<i128>)> {
    let mut seen = Vec::new();
    for rewards in reward_rounds() {
        rm.update_regret(&rewards).unwrap();
        seen.push((
            rm.current_strategy().to_vec(),
            rm.cumulative_strategy().to_vec(),
            rm.num_updates(),
            rm.best_weight(),
        ));
    }
    seen
}

#[test]
fn dcfr_follows_its_update_rule() {
    let mut rm = DiscountedRegretMatcher::new(3).unwrap();
    let seen = run_rounds(&mut rm);
    assert_eq!(
        seen[0],
        (
            vec![3067833783, 1227133513, 0],
            vec![3067833783, 1227133513, 0],
            1,
            vec![3067833783, 1227133513, 0]
        )
    );
    assert_eq!(
        seen[1],
        (
            vec![104716023, 3964796661, 225454612],
            vec![1468197703, 4510189332, 225454612],
            2,
            vec![1016444565, 3122438769, 156083962]
        )
    );
    assert_eq!(
        seen[2],
        (
            vec![701690151, 1223023852, 2370253293],
            vec![1527551358, 3760005351, 2497071512],
            3,
            vec![842786957, 2074485712, 1377694627]
        )
    );
}

#[test]
fn dcfr_plus_follows_its_update_rule() {
    let mut rm = DcfrPlusRegretMatcher::new(3).unwrap();
    let seen = run_rounds(&mut rm);
    assert_eq!(
        seen[0],
        (
            vec![3067833783, 1227133513, 0],
            vec![3067833783, 1227133513, 0],
            1,
            vec![3067833783, 1227133513, 0]
        )
    );
    assert_eq!(
        seen[1],
        (
            vec![0, 3013223129, 1281744167],
            vec![191739611, 3089918973, 1281744167],
            2,
            vec![180460811, 2908159034, 1206347451]
        )
    );
    assert_eq!(
        seen[2],
        (
            vec![135055733, 669369783, 3490541780],
            vec![172930223, 1279724146, 3743725812],
            3,
            vec![142932124, 1057731182, 3094303990]
        )
    );
}

#[test]
fn linear_cfr_follows_its_update_rule() {
    let mut rm = LinearCfrRegretMatcher::new(3).unwrap();
    let seen = run_rounds(&mut rm);
    assert_eq!(
        seen[0],
        (
            vec![3067833783, 1227133513, 0],
            vec![3067833783, 1227133513, 0],
            1,
            vec![3067833783, 1227133513, 0]
        )
    );
    assert_eq!(
        seen[1],
        (
            vec![0, 4052997308, 241969988],
            vec![3067833783, 9333128129, 483939976],
            2,
            vec![1022611262, 3111042709, 161313325]
        )
    );
    assert_eq!(
        seen[2],
        (
            vec![643287241, 1007149637, 2644530418],
            vec![4997695506, 12354577040, 8417531230],
            3,
            vec![832949252, 2059096173, 1402921871]
        )
    );
}

#[test]
fn pcfr_plus_follows_its_update_rule() {
    let mut rm = PcfrPlusRegretMatcher::new(3).unwrap();
    let seen = run_rounds(&mut rm);
    assert_eq!(
        seen[0],
        (
            vec![3067833783, 1227133513, 0],
            vec![3067833783, 1227133513, 0],
            1,
            vec![3067833783, 1227133513, 0]
        )
    );
    assert_eq!(
        seen[1],
        (
            vec![0, 3013223130, 1281744166],
            vec![3067833783, 13280026033, 5126976664],
            2,
            vec![613566757, 2656005207, 1025395332]
        )
    );
    assert_eq!(
        seen[2],
        (
            vec![383114783, 236806738, 3675045775],
            vec![6515866830, 15411286675, 38202388639],
            3,
            vec![465419060, 1100806191, 2728742045]
        )
    );
}

#[test]
fn pdcfr_plus_follows_its_update_rule() {
    let mut rm = PdcfrPlusRegretMatcher::new(3).unwrap();
    let seen = run_rounds(&mut rm);
    assert_eq!(
        seen[0],
        (
            vec![3067833784, 1227133512, 0],
            vec![3067833784, 1227133512, 0],
            1,
            vec![3067833784, 1227133512, 0]
        )
    );
    assert_eq!(
        seen[1],
        (
            vec![0, 2959779173, 1335188123],
            vec![95869805, 2998127095, 1335188123],
            2,
            vec![92964660, 2907274759, 1294727877]
        )
    );
    assert_eq!(
        seen[2],
        (
            vec![117634721, 0, 4177332575],
            vec![130259551, 394815089, 4353159816],
            3,
            vec![114685040, 347608937, 3832673319]
        )
    );
}

#[test]
fn cfr_plus_follows_its_update_rule() {
    let mut rm = CfrPlusRegretMatcher::new(3).unwrap();
    let seen = run_rounds(&mut rm);
    assert_eq!(
        seen[0],
        (
            vec![3067833783, 1227133513, 0],
            vec![3067833783, 1227133513, 0],
            1,
            vec![3067833783, 1227133513, 0]
        )
    );
    assert_eq!(
        seen[1],
        (
            vec![416252338, 2800242994, 1078471964],
            vec![3484086121, 4027376507, 1078471964],
            2,
            vec![1742043061, 2013688253, 539235982]
        )
    );
    assert_eq!(
        seen[2],
        (
            vec![424778885, 1157052979, 2713135432],
            vec![3908865006, 5184429486, 3791607396],
            3,
            vec![1302955002, 1728143162, 1263869132]
        )
    );
}

#[test]
fn regret_matcher_follows_its_update_rule() {
    let mut rm = RegretMatcher::new(3).unwrap();
    let seen = run_rounds(&mut rm);
    assert_eq!(
        seen[0],
        (
            vec![3067833783, 1227133513, 0],
            vec![3067833783, 1227133513, 0],
            1,
            vec![3067833783, 1227133513, 0]
        )
    );
    assert_eq!(
        seen[1],
        (
            vec![555819298, 3739147998, 0],
            vec![3623653081, 4966281511, 0],
            2,
            vec![1811826541, 2483140755, 0]
        )
    );
    assert_eq!(
        seen[2],
        (
            vec![932969325, 1562889039, 1799108932],
            vec![4556622406, 6529170550, 1799108932],
            3,
            vec![1518874136, 2176390183, 599702977]
        )
    );
}

#[test]
fn cfr_plus_keeps_its_regrets_floored_at_zero() {
    let mut rm = CfrPlusRegretMatcher::new(2).unwrap();
    // The regrets are [1/2, -1/2], kept as [1/2, 0].
    rm.update_regret(&[ONE, 0]).unwrap();
    assert_eq!(rm.current_strategy(), &[ONE, 0]);
    // The regrets [0, 1] are added: [1/2, 1], a strategy of [1/3, 2/3].
    rm.update_regret(&[0, ONE]).unwrap();
    assert_eq!(rm.current_strategy(), &[1431655766, 2863311530]);
    assert_eq!(rm.cumulative_strategy(), &[ONE + 1431655766, 2863311530]);
    assert_eq!(rm.best_weight(), vec![2863311531, 1431655765]);
    assert_eq!(rm.num_updates(), 2);
    let best: Vec<f64> = rm.best_weight().iter().map(|&w| w as f64 / 4294967296.0).collect();
    assert!((best[0] - 2.0 / 3.0).abs() < 1e-5);
    assert!((best[1] - 1.0 / 3.0).abs() < 1e-5);
}

#[test]
fn the_plain_matcher_keeps_its_regrets_unclipped() {
    let mut rm = RegretMatcher::new(2).unwrap();
    rm.update_regret(&[ONE, 0]).unwrap();
    assert_eq!(rm.current_strategy(), &[ONE, 0]);
    // Each action has earned 1 in total, the matcher 1/2 and then 0.
    rm.update_regret(&[0, ONE]).unwrap();
    assert_eq!(rm.current_strategy(), &[ONE / 2, ONE / 2]);
    assert_eq!(rm.cumulative_strategy(), &[3 * ONE / 2, ONE / 2]);
    assert_eq!(rm.best_weight(), vec![3 * ONE / 4, ONE / 4]);
    assert_eq!(rm.num_updates(), 2);
}

#[test]
fn cfr_plus_counts_only_the_updates_that_leave_a_positive_regret() {
    let u = 1431655765;
    let mut rm = CfrPlusRegretMatcher::new(3).unwrap();
    // No action earns anything: no regret is positive, nothing counts.
    rm.update_regret(&[0, 0, 0]).unwrap();
    assert_eq!(rm.num_updates(), 0);
    assert_eq!(rm.current_strategy(), &[u + 1, u, u]);
    assert_eq!(rm.cumulative_strategy(), &[0, 0, 0]);
    // This round is the first that counts.
    rm.update_regret(&[ONE, 0, -ONE]).unwrap();
    assert_eq!(rm.num_updates(), 1);
    assert_eq!(rm.current_strategy(), &[ONE, 0, 0]);
    assert_eq!(rm.cumulative_strategy(), &[ONE, 0, 0]);
    // Rock is played and earns 0: the regrets [1, 0, 0] take in [0, 1, 1].
    rm.update_regret(&[0, ONE, ONE]).unwrap();
    assert_eq!(rm.num_updates(), 2);
    assert_eq!(rm.current_strategy(), &[u + 1, u, u]);
    assert_eq!(rm.cumulative_strategy(), &[ONE + u + 1, u, u]);
}

#[test]
fn the_plain_matcher_counts_only_the_updates_that_leave_a_positive_regret() {
    let u = 1431655765;
    let mut rm = RegretMatcher::new(3).unwrap();
    rm.update_regret(&[0, 0, 0]).unwrap();
    assert_eq!(rm.num_updates(), 0);
    assert_eq!(rm.current_strategy(), &[u + 1, u, u]);
    assert_eq!(rm.cumulative_strategy(), &[0, 0, 0]);
    rm.update_regret(&[ONE, 0, -ONE]).unwrap();
    assert_eq!(rm.num_updates(), 1);
    assert_eq!(rm.current_strategy(), &[ONE, 0, 0]);
    // Rock has earned 1 in total, paper 1, scissors 0; the matcher 0.
    rm.update_regret(&[0, ONE, ONE]).unwrap();
    assert_eq!(rm.num_updates(), 2);
    assert_eq!(rm.current_strategy(), &[ONE / 2, ONE / 2, 0]);
    assert_eq!(rm.cumulative_strategy(), &[3 * ONE / 2, ONE / 2, 0]);
    assert_eq!(rm.best_weight(), vec![3 * ONE / 4, ONE / 4, 0]);
}

#[test]
fn cfr_plus_stays_at_zero_updates_on_equal_rewards() {
    let mut rm = RegretMatcher::new(4).unwrap();
    for _ in 0..5 {
        rm.update_regret(&[ONE, ONE, ONE, ONE]).unwrap();
        assert_eq!(rm.num_updates(), 0);
        assert_eq!(rm.current_strategy(), &[ONE / 4; 4]);
        assert_eq!(rm.cumulative_strategy(), &[0; 4]);
        assert_eq!(rm.best_weight(), vec![ONE / 4; 4]);
    }
}

#[test]
fn discounted_variants_count_every_update_and_keep_their_history() {
    let zero = [0i128, 0, 0];
    let u = 1431655765;

    let mut dcfr = DiscountedRegretMatcher::new(3).unwrap();
    let mut dcfr_plus = DcfrPlusRegretMatcher::new(3).unwrap();
    let mut linear = LinearCfrRegretMatcher::new(3).unwrap();
    let mut pcfr = PcfrPlusRegretMatcher::new(3).unwrap();
    let mut pdcfr = PdcfrPlusRegretMatcher::new(3).unwrap();
    for round in 1..=4usize {
        dcfr.update_regret(&zero).unwrap();
        dcfr_plus.update_regret(&zero).unwrap();
        linear.update_regret(&zero).unwrap();
        pcfr.update_regret(&zero).unwrap();
        pdcfr.update_regret(&zero).unwrap();
        assert_eq!(dcfr.num_updates(), round);
        assert_eq!(dcfr_plus.num_updates(), round);
        assert_eq!(linear.num_updates(), round);
        assert_eq!(pcfr.num_updates(), round);
        assert_eq!(pdcfr.num_updates(), round);
        // no regret is positive: the strategy of the round is uniform
        assert_eq!(dcfr.current_strategy(), &[u + 1, u, u]);
        assert_eq!(dcfr_plus.current_strategy(), &[u + 1, u, u]);
        assert_eq!(linear.current_strategy(), &[u + 1, u, u]);
        assert_eq!(pcfr.current_strategy(), &[u + 1, u, u]);
        assert_eq!(pdcfr.current_strategy(), &[u + 1, u, u]);
    }
    // the uniform strategies were accumulated all the same
    assert_eq!(linear.cumulative_strategy(), &[10 * (u + 1), 10 * u, 10 * u]);
    assert_eq!(pcfr.cumulative_strategy(), &[30 * (u + 1), 30 * u, 30 * u]);
    assert!(dcfr.cumulative_strategy().iter().all(|&x| x > u));
    assert!(dcfr_plus.cumulative_strategy().iter().all(|&x| x > u));
    assert!(pdcfr.cumulative_strategy().iter().all(|&x| x > u));
}

#[test]
fn every_strategy_stays_a_probability_vector() {
    fn check<M: RegretMinimizer>(mut rm: M) {
        let rounds: Vec<Vec<i128>> = vec![
            vec![ONE, 0, -ONE, 5, 7 * ONE],
            vec![-3 * ONE, ONE / 3, 0, 0, 0],
            vec![0, 0, 0, 0, 0],
            vec![i128::MAX, i128::MIN, 1, -1, 0],
            vec![-ONE, -ONE, -ONE, -ONE, -ONE],
            vec![12345, 678910, -1112, 1314, -151617],
            vec![i128::MIN, i128::MIN, i128::MIN, i128::MIN, i128::MAX],
        ];
        for round in 0..70 {
            rm.update_regret(&rounds[round % rounds.len()]).unwrap();
            let p = rm.current_strategy();
            let sum: i128 = p.iter().sum();
            assert!(p.iter().all(|&v| 0 <= v && v <= ONE));
            assert_eq!(sum, ONE);
            let best = rm.best_weight();
            let best_sum: i128 = best.iter().sum();
            assert!(best.iter().all(|&v| 0 <= v && v <= ONE));
            assert_eq!(best_sum, ONE);
        }
    }
    check(CfrPlusRegretMatcher::new(5).unwrap());
    check(RegretMatcher::new(5).unwrap());
    check(DiscountedRegretMatcher::new(5).unwrap());
    check(DiscountedRegretMatcher::lcfr(5).unwrap());
    check(DiscountedRegretMatcher::pruning_safe(5).unwrap());
    check(DcfrPlusRegretMatcher::new(5).unwrap());
    check(LinearCfrRegretMatcher::new(5).unwrap());
    check(PcfrPlusRegretMatcher::new(5).unwrap());
    check(PdcfrPlusRegretMatcher::new(5).unwrap());
}

#[test]
fn best_weight_is_uniform_before_the_first_update() {
    fn check<M: RegretMinimizer>(rm: M) {
        let best = rm.best_weight();
        assert_eq!(best, vec![858993460, 858993459, 858993459, 858993459, 858993459]);
        let sum: f64 = best.iter().map(|&w| w as f64 / 4294967296.0).sum();
        assert!((sum - 1.0).abs() < 1e-5);
    }
    check(CfrPlusRegretMatcher::new(5).unwrap());
    check(RegretMatcher::new(5).unwrap());
    check(DiscountedRegretMatcher::new(5).unwrap());
    check(DcfrPlusRegretMatcher::new(5).unwrap());
    check(LinearCfrRegretMatcher::new(5).unwrap());
    check(PcfrPlusRegretMatcher::new(5).unwrap());
    check(PdcfrPlusRegretMatcher::new(5).unwrap());
}

#[test]
fn next_action_never_picks_an_action_of_probability_zero() {
    let mut rng = rand::rng();
    let mut rm = DcfrPlusRegretMatcher::new(3).unwrap();
    rm.update_regret(&[-ONE, -ONE, ONE]).unwrap();
    assert_eq!(rm.current_strategy(), &[0, 0, ONE]);
    for _ in 0..100 {
        assert_eq!(rm.next_action(&mut rng), 2);
    }
    let fresh = LinearCfrRegretMatcher::new(3).unwrap();
    let mut seen = [false; 3];
    for _ in 0..500 {
        seen[fresh.next_action(&mut rng)] = true;
    }
    assert!(seen.iter().all(|&s| s), "expected all actions sampled");
}
