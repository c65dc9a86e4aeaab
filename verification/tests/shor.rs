use qsim::algorithms::{find_period, period_of_log, period_program, shors};
use qsim::complex::{Scalar, C};
use qsim::matrix::Matrix;
use qsim::quantum_assembler::run_with;
use qsim::table::Table;

/// A complex number of two rounded parts.
#[derive(Debug, Copy, Clone, PartialEq)]
struct F {
    a: f64,
    b: f64,
}

fn f(a: f64, b: f64) -> F {
    F { a, b }
}

fn fr(a: f64) -> F {
    F { a, b: 0.0 }
}

impl Scalar for F {
    fn zero() -> F {
        fr(0.0)
    }
    fn one() -> F {
        fr(1.0)
    }
    fn plus(self, other: F) -> F {
        f(self.a + other.a, self.b + other.b)
    }
    fn minus(self, other: F) -> F {
        f(self.a - other.a, self.b - other.b)
    }
    fn times(self, other: F) -> F {
        f(
            self.a * other.a - self.b * other.b,
            self.a * other.b + self.b * other.a,
        )
    }
    fn conjugate(self) -> F {
        f(self.a, -self.b)
    }
    fn near(self, other: F) -> bool {
        (self.a - other.a).abs() < 1e-9 && (self.b - other.b).abs() < 1e-9
    }
    fn weight(self) -> u64 {
        ((self.a * self.a + self.b * self.b) * 1_073_741_824.0).round() as u64
    }
    fn polar(scale: u64, turn: u64, turns: u64) -> Option<F> {
        if scale == 0 || turns == 0 {
            return None;
        }
        let r = 1.0 / (scale as f64).sqrt();
        let t = 2.0 * std::f64::consts::PI * (turn as f64) / (turns as f64);
        Some(f(r * t.cos(), r * t.sin()))
    }
}

#[test]
fn test_shors() {
    let n = 15;
    let (p, q) = shors::<F>(n).unwrap();
    assert_eq!(p * q, n);

    let n = 6;
    let (p, q) = shors::<F>(n).unwrap();
    assert_eq!(p * q, n);

    let n = 14;
    let (p, q) = shors::<F>(n).unwrap();
    assert_eq!(p * q, n);
}

#[test]
fn test_find_period() {
    // The search for the period of 2 modulo 15, with the draws of its eight
    // measurements fixed. After the value register is measured, 64 states
    // are left, four exponents apart: the draws fall on the states 0, 1, 3,
    // 10, 20, 33 and 63 of them.
    let state: u128 = F::weight(fr(1.0 / 16.0)) as u128;
    let draws = vec![
        0,
        0,
        state,
        3 * state,
        10 * state,
        20 * state,
        33 * state,
        63 * state,
    ];
    let log = run_with::<F>(period_program(2, 15), draws).unwrap();
    assert_eq!(period_of_log(&log, 4), Some(4));
}

#[test]
fn the_estimate_of_the_period_is_a_multiple_of_the_period() {
    let estimate = find_period::<F>(2, 15).unwrap();
    assert!(estimate > 0);
    assert_eq!(estimate % 4, 0);
}

#[test]
fn factors_of_fifteen_are_three_and_five() {
    let (p, q) = shors::<F>(15).unwrap();
    assert_eq!(p * q, 15);
    assert!(p == 3 || p == 5);
    assert!(q == 3 || q == 5);
}

#[test]
fn the_sampling_program_for_two_and_fifteen() {
    assert_eq!(
        period_program(2, 15),
        "INITIALIZE R 12
U TENSOR G_H G_H
U TENSOR U G_H
U TENSOR U G_H
U TENSOR U G_H
U TENSOR U G_H
U TENSOR U G_H
U TENSOR U G_H
U TENSOR U G_I_16
APPLY U R
APPLY G_Uf_2_15 R
SELECT S R 8 12
MEASURE S RES
MEASURE R RES1
MEASURE R RES2
MEASURE R RES3
MEASURE R RES4
MEASURE R RES5
MEASURE R RES6
MEASURE R RES7
"
    );
}

#[test]
fn the_sampling_program_for_the_least_modulus() {
    assert_eq!(
        period_program(7, 1),
        "INITIALIZE R 3
U TENSOR G_H G_H
U TENSOR U G_I_2
APPLY U R
APPLY G_Uf_7_1 R
SELECT S R 2 3
MEASURE S RES
MEASURE R RES1
MEASURE R RES2
MEASURE R RES3
MEASURE R RES4
MEASURE R RES5
MEASURE R RES6
MEASURE R RES7
"
    );
}

#[test]
fn the_period_is_read_from_the_leading_digits_of_the_samples() {
    let mut log: Table<(Matrix<C>, String)> = Table::new();
    let state = Matrix::new(vec![vec![C::new(1, 0)]]);
    for (name, bits) in [
        ("RES1", "000010"),
        ("RES2", "011011"),
        ("RES3", "101000"),
        ("RES4", "001001"),
        ("RES5", "111010"),
        ("RES6", "011000"),
    ] {
        log.insert(name.to_string(), (state.copy(), bits.to_string()));
    }
    assert_eq!(period_of_log(&log, 2), None);
    log.insert("RES7".to_string(), (state.copy(), "0110".to_string()));
    // the exponents 0, 6, 10, 2, 14, 6, 6 lie 0, 6, 10, 2, 14, 6, 6 above the least
    assert_eq!(period_of_log(&log, 2), Some(2));
    assert_eq!(period_of_log(&log, 3), None);
    assert_eq!(period_of_log(&log, 0), Some(0));
}

#[test]
fn the_period_of_two_modulo_three() {
    // the value register is measured first; then every sample of the
    // exponent has the same parity, and the estimate is a multiple of 2
    let program = period_program(2, 3);
    for seed in 0..20u128 {
        let draws: Vec<u128> = (0..8).map(|i| (seed * 7919 + i * 104_729) * 1_000_003).collect();
        let log = run_with::<F>(program.clone(), draws).unwrap();
        let period = period_of_log(&log, 2).unwrap();
        assert_eq!(period % 2, 0);
    }
}

#[test]
fn exact_numbers_cannot_run_the_sampling_program() {
    assert_eq!(find_period::<C>(2, 15), None);
    assert_eq!(shors::<C>(15).map(|(p, q)| p * q).unwrap_or(15), 15);
}
