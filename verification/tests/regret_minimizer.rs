use little_sorry::fixed::{LIMIT, ONE};
use little_sorry::accumulate::{
    accumulate_clipped, accumulate_discounted, accumulate_plus, accumulate_squared,
    accumulate_weighted, instantaneous_regret,
};
use little_sorry::regret_minimizer::{
    add_assign, dot, normalize_by_sum, normalize_inplace, positive_sum, regret_match,
    sample_action, select_action, uniform_fill, uniform_weights, zeros,
};

fn fx(x: f64) -> i128 {
    (x * 4294967296.0).floor() as i128
}

fn to_real(v: i128) -> f64 {
    v as f64 / 4294967296.0
}

fn fxs(xs: &[f64]) -> Vec<i128> {
    xs.iter().map(|&x| fx(x)).collect()
}

fn to_reals(vs: &[i128]) -> Vec<f64> {
    vs.iter().map(|&v| to_real(v)).collect()
}

// ── uniform_weights ─────────────────────────────────────────────

#[test]
fn test_uniform_weights_sums_to_one() {
    for n in 1..=10 {
        let w = to_reals(&uniform_weights(n));
        assert_eq!(w.len(), n);
        assert!((w.iter().sum::<f64>() - 1.0).abs() < 1e-6);
    }
}

#[test]
fn test_uniform_weights_all_equal() {
    let w = to_reals(&uniform_weights(4));
    assert!(w.iter().all(|&v| (v - 0.25).abs() < 1e-6));
}

#[test]
fn uniform_weights_of_no_action_is_empty() {
    assert_eq!(uniform_weights(0), Vec::<i128>::new());
}

#[test]
fn uniform_weights_sum_to_one_exactly() {
    assert_eq!(uniform_weights(3), vec![1431655766, 1431655765, 1431655765]);
    assert_eq!(
        uniform_weights(7),
        vec![613566757, 613566757, 613566757, 613566757, 613566756, 613566756, 613566756]
    );
    assert_eq!(uniform_weights(1), vec![ONE]);
    assert_eq!(uniform_weights(4), vec![ONE / 4; 4]);
    for n in [2usize, 3, 5, 6, 7, 100, 1000, 42950, 100_000] {
        let w = uniform_weights(n);
        assert_eq!(w.iter().sum::<i128>(), ONE);
        assert!(w.iter().all(|&x| x == ONE / n as i128 || x == ONE / n as i128 + 1));
    }
}

// ── uniform_fill ────────────────────────────────────────────────

#[test]
fn test_uniform_fill() {
    let mut p = fxs(&[0.0; 5]);
    uniform_fill(&mut p);
    let p = to_reals(&p);
    assert!(p.iter().all(|&v| (v - 0.2).abs() < 1e-6));
    assert!((p.iter().sum::<f64>() - 1.0).abs() < 1e-6);
}

#[test]
fn uniform_fill_leaves_an_empty_vector_empty() {
    let mut p: Vec<i128> = Vec::new();
    uniform_fill(&mut p);
    assert!(p.is_empty());
}

// ── dot ─────────────────────────────────────────────────────────

#[test]
fn test_dot_basic() {
    let r = dot(&fxs(&[1.0, 2.0, 3.0]), &fxs(&[4.0, 5.0, 6.0]));
    assert!((to_real(r) - 32.0).abs() < 1e-6);
}

#[test]
fn test_dot_zeros() {
    assert!(to_real(dot(&fxs(&[0.0, 0.0]), &fxs(&[1.0, 2.0]))).abs() < 1e-6);
}

#[test]
fn test_dot_single() {
    assert!((to_real(dot(&fxs(&[3.0]), &fxs(&[7.0]))) - 21.0).abs() < 1e-6);
}

#[test]
fn dot_is_exact_on_whole_numbers_and_stops_at_the_shorter_slice() {
    assert_eq!(dot(&[ONE, 2 * ONE, 3 * ONE], &[4 * ONE, 5 * ONE, 6 * ONE]), 32 * ONE);
    assert_eq!(dot(&[ONE, 2 * ONE, 3 * ONE], &[4 * ONE, 5 * ONE]), 14 * ONE);
    assert_eq!(dot(&[], &[ONE]), 0);
    assert_eq!(dot(&[ONE / 2, ONE / 2], &[ONE, -ONE]), 0);
}

#[test]
fn dot_saturates() {
    assert_eq!(dot(&[i128::MAX, i128::MAX], &[i128::MAX, i128::MAX]), LIMIT);
    assert_eq!(dot(&[i128::MAX, ONE], &[i128::MIN, ONE]), -LIMIT + ONE);
}

// ── add_assign ──────────────────────────────────────────────────

#[test]
fn test_add_assign() {
    let mut dst = fxs(&[1.0, 2.0, 3.0]);
    add_assign(&mut dst, &fxs(&[10.0, 20.0, 30.0]));
    let dst = to_reals(&dst);
    assert!((dst[0] - 11.0).abs() < 1e-6);
    assert!((dst[1] - 22.0).abs() < 1e-6);
    assert!((dst[2] - 33.0).abs() < 1e-6);
}

#[test]
fn add_assign_stops_at_the_shorter_side() {
    let mut dst = vec![1, 2, 3];
    add_assign(&mut dst, &[10, 20]);
    assert_eq!(dst, vec![11, 22, 3]);
    let mut short = vec![1];
    add_assign(&mut short, &[10, 20]);
    assert_eq!(short, vec![11]);
    let mut big = vec![LIMIT];
    add_assign(&mut big, &[LIMIT]);
    assert_eq!(big, vec![LIMIT]);
}

// ── normalize_inplace ───────────────────────────────────────────

#[test]
fn test_normalize_inplace_positive() {
    let mut p = fxs(&[2.0, 3.0, 5.0]);
    normalize_inplace(&mut p);
    let p = to_reals(&p);
    assert!((p[0] - 0.2).abs() < 1e-6);
    assert!((p[1] - 0.3).abs() < 1e-6);
    assert!((p[2] - 0.5).abs() < 1e-6);
}

#[test]
fn test_normalize_inplace_all_zeros_falls_back_to_uniform() {
    let mut p = fxs(&[0.0, 0.0, 0.0]);
    normalize_inplace(&mut p);
    let expected = 1.0 / 3.0;
    assert!(to_reals(&p).iter().all(|&v| (v - expected).abs() < 1e-6));
}

#[test]
fn normalize_inplace_hands_out_what_rounding_leaves() {
    let mut p = vec![2 * ONE, 3 * ONE, 5 * ONE];
    normalize_inplace(&mut p);
    assert_eq!(p, vec![858993460, 1288490188, 2147483648]);
    let mut q = vec![LIMIT, LIMIT];
    normalize_inplace(&mut q);
    assert_eq!(q, vec![ONE / 2, ONE / 2]);
    let mut e: Vec<i128> = Vec::new();
    normalize_inplace(&mut e);
    assert!(e.is_empty());
}

// ── normalize_by_sum ────────────────────────────────────────────

#[test]
fn test_normalize_by_sum_positive() {
    let result = to_reals(&normalize_by_sum(&fxs(&[1.0, 3.0])));
    assert!((result[0] - 0.25).abs() < 1e-6);
    assert!((result[1] - 0.75).abs() < 1e-6);
}

#[test]
fn test_normalize_by_sum_zeros_falls_back_to_uniform() {
    let result = to_reals(&normalize_by_sum(&fxs(&[0.0, 0.0, 0.0, 0.0])));
    assert!(result.iter().all(|&v| (v - 0.25).abs() < 1e-6));
}

#[test]
fn normalize_by_sum_is_exact_on_dyadic_shares() {
    assert_eq!(normalize_by_sum(&[ONE, 3 * ONE]), vec![ONE / 4, 3 * ONE / 4]);
    assert_eq!(normalize_by_sum(&[7]), vec![ONE]);
    assert_eq!(normalize_by_sum(&[-ONE, ONE]), vec![0, ONE]);
    assert_eq!(normalize_by_sum(&[]), Vec::<i128>::new());
}

// ── regret_match ────────────────────────────────────────────────

#[test]
fn test_regret_match_positive_regrets() {
    let regrets = fxs(&[2.0, 0.0, 8.0]);
    let mut p = fxs(&[0.0; 3]);
    regret_match(&regrets, &mut p);
    let p = to_reals(&p);
    assert!((p[0] - 0.2).abs() < 1e-6);
    assert!((p[1]).abs() < 1e-6);
    assert!((p[2] - 0.8).abs() < 1e-6);
}

#[test]
fn test_regret_match_all_negative_falls_back_to_uniform() {
    let regrets = fxs(&[-1.0, -2.0, -3.0]);
    let mut p = fxs(&[0.0; 3]);
    regret_match(&regrets, &mut p);
    let expected = 1.0 / 3.0;
    assert!(to_reals(&p).iter().all(|&v| (v - expected).abs() < 1e-6));
}

#[test]
fn test_regret_match_mixed_regrets() {
    let regrets = fxs(&[-5.0, 3.0, 7.0]);
    let mut p = fxs(&[0.0; 3]);
    regret_match(&regrets, &mut p);
    let p = to_reals(&p);
    assert!((p[0]).abs() < 1e-6); // negative clipped to 0
    assert!((p[1] - 0.3).abs() < 1e-6);
    assert!((p[2] - 0.7).abs() < 1e-6);
}

#[test]
fn regret_match_gives_exact_rounded_shares() {
    let mut p = vec![0; 3];
    regret_match(&[-5 * ONE, 3 * ONE, 7 * ONE], &mut p);
    assert_eq!(p, vec![0, 1288490189, 3006477107]);
    let mut q = vec![0; 3];
    regret_match(&[2 * ONE, 0, 8 * ONE], &mut q);
    assert_eq!(q, vec![858993460, 0, 3435973836]);
    let mut u = vec![7; 3];
    regret_match(&[-ONE, -2 * ONE, -3 * ONE], &mut u);
    assert_eq!(u, vec![1431655766, 1431655765, 1431655765]);
}

#[test]
fn regret_match_keeps_what_lies_beyond_the_regrets() {
    let mut p = vec![0, 0, 2 * ONE];
    regret_match(&[ONE, ONE], &mut p);
    assert_eq!(p, vec![ONE / 4, ONE / 4, ONE / 2]);
    let mut q = vec![0];
    regret_match(&[ONE, ONE], &mut q);
    assert_eq!(q, vec![ONE]);
}

#[test]
fn regret_match_yields_a_probability_vector() {
    let cases: Vec<Vec<i128>> = vec![
        vec![1, 1, 1],
        vec![ONE, 2 * ONE, 3 * ONE, 5 * ONE, 7 * ONE, 11 * ONE, 13 * ONE],
        vec![-ONE, 0, 1],
        vec![LIMIT, 1, LIMIT, 3],
        vec![i128::MIN, i128::MAX, 0],
        vec![0; 17],
        vec![1; 100_000],
        vec![0; 42_950],
    ];
    for regrets in cases {
        let mut p = vec![0; regrets.len()];
        regret_match(&regrets, &mut p);
        let sum: i128 = p.iter().sum();
        assert!(p.iter().all(|&v| 0 <= v && v <= ONE));
        assert_eq!(sum, ONE);
    }
}

// ── other shared helpers ────────────────────────────────────────

#[test]
fn positive_sum_adds_the_positive_parts() {
    assert_eq!(positive_sum(&[ONE, -ONE, 3]), ONE + 3);
    assert_eq!(positive_sum(&[-1, -2]), 0);
    assert_eq!(positive_sum(&[]), 0);
    assert_eq!(positive_sum(&[i128::MAX, i128::MAX]), 2 * LIMIT);
}

#[test]
fn zeros_are_zero() {
    assert_eq!(zeros(3), vec![0, 0, 0]);
    assert_eq!(zeros(0), Vec::<i128>::new());
}

#[test]
fn instantaneous_regret_subtracts_the_expected_reward() {
    assert_eq!(instantaneous_regret(&[ONE, 0, -ONE], ONE / 2), vec![ONE / 2, -ONE / 2, -3 * ONE / 2]);
    assert_eq!(instantaneous_regret(&[i128::MIN], i128::MAX), vec![-LIMIT]);
    assert_eq!(instantaneous_regret(&[], 5), Vec::<i128>::new());
}

#[test]
fn accumulate_plus_floors_at_zero() {
    let mut a = vec![ONE, ONE, 0, 5];
    accumulate_plus(&mut a, &[ONE, -2 * ONE, -1]);
    assert_eq!(a, vec![2 * ONE, 0, 0, 5]);
}

#[test]
fn accumulate_clipped_discounts_then_floors() {
    let mut a = vec![4 * ONE, 4 * ONE, ONE];
    accumulate_clipped(&mut a, ONE / 2, &[ONE, -3 * ONE]);
    assert_eq!(a, vec![3 * ONE, 0, ONE]);
    let mut b = vec![4 * ONE];
    accumulate_clipped(&mut b, 0, &[-ONE]);
    assert_eq!(b, vec![0]);
}

#[test]
fn accumulate_discounted_picks_the_discount_by_sign() {
    let mut a = vec![4 * ONE, -4 * ONE, 0, 9];
    accumulate_discounted(&mut a, ONE / 2, ONE / 4, &[ONE, ONE, ONE]);
    assert_eq!(a, vec![3 * ONE, 0, ONE, 9]);
}

#[test]
fn accumulate_weighted_and_squared_scale_by_time() {
    let mut a = vec![ONE, ONE, 7];
    accumulate_weighted(&mut a, 3, &[ONE, -ONE]);
    assert_eq!(a, vec![4 * ONE, -2 * ONE, 7]);
    let mut b = vec![ONE, ONE];
    accumulate_squared(&mut b, 3, &[ONE, -ONE]);
    assert_eq!(b, vec![10 * ONE, -8 * ONE]);
    let mut c = vec![0];
    accumulate_squared(&mut c, usize::MAX, &[1]);
    assert_eq!(c, vec![LIMIT]);
    let mut d = vec![0];
    accumulate_squared(&mut d, 1 << 40, &[1]);
    assert_eq!(d, vec![1 << 80]);
}

// ── sample_action ───────────────────────────────────────────────

#[test]
fn test_sample_action_deterministic_distribution() {
    let mut rng = rand::rng();
    // All weight on action 2
    let p = fxs(&[0.0, 0.0, 1.0]);
    for _ in 0..100 {
        assert_eq!(sample_action(&p, &mut rng), 2);
    }
}

#[test]
fn test_sample_action_uniform_hits_all_actions() {
    let mut rng = rand::rng();
    let p = fxs(&[1.0 / 3.0, 1.0 / 3.0, 1.0 / 3.0]);
    let mut seen = [false; 3];
    for _ in 0..500 {
        seen[sample_action(&p, &mut rng)] = true;
    }
    assert!(seen.iter().all(|&s| s), "expected all actions sampled");
}

#[test]
fn select_action_scans_the_running_sums() {
    let p = [ONE / 4, ONE / 4, ONE / 2];
    assert_eq!(select_action(&p, 0), 0);
    assert_eq!(select_action(&p, ONE / 4 - 1), 0);
    assert_eq!(select_action(&p, ONE / 4), 1);
    assert_eq!(select_action(&p, ONE / 2 - 1), 1);
    assert_eq!(select_action(&p, ONE / 2), 2);
    assert_eq!(select_action(&p, ONE - 1), 2);
    // beyond every running sum: the last action
    assert_eq!(select_action(&p, ONE), 2);
    assert_eq!(select_action(&[0, 0, 0], 0), 2);
    // a zero weight is never selected while the draw is below the total
    assert_eq!(select_action(&[0, ONE, 0], 0), 1);
    assert_eq!(select_action(&[0, 0, ONE], ONE - 1), 2);
    assert_eq!(select_action(&[ONE], -5), 0);
}

#[test]
fn a_draw_below_one_selects_an_action_of_positive_probability() {
    let mut p = vec![0; 6];
    regret_match(&[0, 3, -ONE, 5 * ONE, 0, 1], &mut p);
    assert_eq!(p.iter().sum::<i128>(), ONE);
    for r in [0, 1, 2, 3, ONE / 2, ONE - 2, ONE - 1] {
        let a = select_action(&p, r);
        assert!(p[a] > 0);
    }
    let mut rng = rand::rng();
    for _ in 0..200 {
        assert!(p[sample_action(&p, &mut rng)] > 0);
    }
}
