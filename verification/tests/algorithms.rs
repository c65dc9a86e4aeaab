use qsim::algorithms::{
    common_factor, find_factors, gcd, get_m, get_m_probability_dist, get_n_probability_dist, lcm,
    lcm_vec, period_in_ints, pick_a,
};
use qsim::complex::C;
use qsim::matrix::Matrix;

#[test]
fn test_gcd() {
    assert_eq!(gcd(10, 15), 5);
    assert_eq!(gcd(10, 20), 10);
    assert_eq!(gcd(10, 21), 1);
    assert_eq!(gcd(21, 7), 7);
}

#[test]
fn test_lcm() {
    assert_eq!(lcm_vec(vec![2, 3, 4]), 12);
    assert_eq!(lcm_vec(vec![2, 3, 5]), 30);
    assert_eq!(lcm_vec(vec![2, 3, 5, 15, 10]), 30);
    assert_eq!(lcm_vec(vec![21, 6]), 42);
}

#[test]
fn test_find_period_in_int() {
    assert_eq!(period_in_ints(vec![2, 254, 14, 18]), 4);
    assert_eq!(period_in_ints(vec![2, 254, 14, 16]), 2);
    assert_eq!(period_in_ints(vec![7, 13, 19, 28]), 3);
    assert_eq!(period_in_ints(vec![10, 20, 1005]), 5);
}

#[test]
fn test_find_factors() {
    let r = 4;
    let a = 2;
    let n = 15;
    let res = find_factors(r, a, n);
    assert_eq!(res, Some((5, 3)));

    let r = 3;
    let res = find_factors(r, a, n);
    assert_eq!(res, None);

    let r = 26;
    let a = 6;
    let n = 371;

    let res = find_factors(r, a, n);
    assert_eq!(res, None);

    assert_eq!(find_factors(78, 24, 371), Some((7, 53)));
}

#[test]
fn gcd_with_zero() {
    assert_eq!(gcd(0, 0), 0);
    assert_eq!(gcd(0, 9), 9);
    assert_eq!(gcd(9, 0), 9);
    assert_eq!(gcd(u64::MAX, u64::MAX - 1), 1);
}

#[test]
fn lcm_of_two() {
    assert_eq!(lcm(4, 6), 12);
    assert_eq!(lcm(0, 6), 0);
    assert_eq!(lcm(7, 1), 7);
}

#[test]
fn lcm_vec_skips_later_zeros_only() {
    assert_eq!(lcm_vec(vec![4, 0, 6]), 12);
    assert_eq!(lcm_vec(vec![0, 5]), 0);
    assert_eq!(lcm_vec(vec![9]), 9);
}

#[test]
fn period_of_few_samples() {
    assert_eq!(period_in_ints(vec![]), 0);
    assert_eq!(period_in_ints(vec![12]), 0);
    assert_eq!(period_in_ints(vec![5, 5, 5]), 0);
    assert_eq!(period_in_ints(vec![5, 11]), 6);
    assert_eq!(period_in_ints(vec![2_000_000, 2_000_012, 2_000_008]), 4);
}

#[test]
fn leading_bits_of_an_outcome() {
    assert_eq!(get_m("101100".to_string(), 2), 11);
    assert_eq!(get_m("101100".to_string(), 3), 44);
    assert_eq!(get_m("101100".to_string(), 0), 0);
    assert_eq!(get_m("000000000100".to_string(), 4), 0);
    assert_eq!(get_m("000001000100".to_string(), 4), 4);
}

#[test]
fn factors_rejected_when_the_half_power_is_minus_one() {
    // 6^13 = 370 = -1 modulo 371
    assert_eq!(find_factors(26, 6, 371), None);
    // 2^2 = 4 = -1 modulo 5
    assert_eq!(find_factors(4, 2, 5), None);
}

#[test]
fn factors_rejected_when_the_divisor_is_trivial() {
    // 4^1 + 1 = 5 shares the whole of 5, and nothing with 7
    assert_eq!(find_factors(2, 4, 7), None);
    assert_eq!(find_factors(0, 2, 15), None);
}

#[test]
fn factors_multiply_to_n() {
    for n in [15u32, 21, 33, 35, 77, 371] {
        for a in 2..n {
            for r in 0..40u32 {
                if let Some((p, q)) = find_factors(r, a, n) {
                    assert_eq!(p * q, n);
                    assert!(1 < p && p < n);
                }
            }
        }
    }
}

#[test]
fn picked_base_lies_in_range() {
    for n in [3u32, 4, 15, 1000] {
        for _ in 0..200 {
            let a = pick_a(n);
            assert!(2 <= a && a < n);
        }
    }
    let mut seen = [false; 16];
    for _ in 0..2000 {
        seen[pick_a(16) as usize] = true;
    }
    assert!(seen[2..16].iter().all(|s| *s));
}

#[test]
fn a_base_with_a_common_factor_gives_it_at_once() {
    assert_eq!(common_factor(6, 15), Some((3, 5)));
    assert_eq!(common_factor(10, 15), Some((5, 3)));
    assert_eq!(common_factor(2, 15), None);
    assert_eq!(common_factor(14, 15), None);
    assert_eq!(common_factor(0, 15), Some((15, 1)));
}

fn column(parts: &[i64]) -> Matrix<C> {
    Matrix::new(parts.iter().map(|a| vec![C::new(*a, 0)]).collect())
}

#[test]
fn the_exponents_of_the_amplitudes_that_are_not_zero() {
    // one digit for the value, two for the exponent
    let state = column(&[7, 0, 2, 3, 0, 0, 5, 1]);
    assert_eq!(
        get_m_probability_dist(state, 1),
        vec![
            (1, C::new(2, 0)),
            (1, C::new(3, 0)),
            (3, C::new(5, 0)),
            (3, C::new(1, 0)),
        ]
    );
}

#[test]
fn the_values_of_the_amplitudes_that_are_not_zero() {
    let state = column(&[7, 0, 2, 3, 0, 0, 5, 1]);
    assert_eq!(
        get_n_probability_dist(state, 1),
        vec![
            (0, C::new(2, 0)),
            (1, C::new(3, 0)),
            (0, C::new(5, 0)),
            (1, C::new(1, 0)),
        ]
    );
}

#[test]
fn a_state_of_one_entry_has_an_empty_distribution() {
    assert_eq!(get_m_probability_dist(column(&[1]), 0), vec![]);
    assert_eq!(get_n_probability_dist(column(&[1]), 0), vec![]);
}
