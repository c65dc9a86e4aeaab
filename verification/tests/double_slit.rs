use qsim::complex::{Scalar, C};
use qsim::double_slit::{
    bool_double_slit, prob_double_slit, quantum_double_slit, setup_prob_matrix,
    setup_quantum_matrix, slits_to_matrix_size,
};
use qsim::matrix::Matrix;

/// A complex number of two rounded parts.
#[derive(Debug, Copy, Clone, PartialEq)]
struct F {
    a: f64,
    b: f64,
}

fn f(a: f64, b: f64) -> F {
    F { a, b }
}

fn fr(a: f64) -> F {
    F { a, b: 0.0 }
}

impl Scalar for F {
    fn zero() -> F {
        fr(0.0)
    }
    fn one() -> F {
        fr(1.0)
    }
    fn plus(self, other: F) -> F {
        f(self.a + other.a, self.b + other.b)
    }
    fn minus(self, other: F) -> F {
        f(self.a - other.a, self.b - other.b)
    }
    fn times(self, other: F) -> F {
        f(
            self.a * other.a - self.b * other.b,
            self.a * other.b + self.b * other.a,
        )
    }
    fn conjugate(self) -> F {
        f(self.a, -self.b)
    }
    fn near(self, other: F) -> bool {
        (self.a - other.a).abs() < 1e-9 && (self.b - other.b).abs() < 1e-9
    }
    fn weight(self) -> u64 {
        ((self.a * self.a + self.b * self.b) * 1_073_741_824.0).round() as u64
    }
    fn polar(scale: u64, turn: u64, turns: u64) -> Option<F> {
        if scale == 0 || turns == 0 {
            return None;
        }
        let r = 1.0 / (scale as f64).sqrt();
        let t = 2.0 * std::f64::consts::PI * (turn as f64) / (turns as f64);
        Some(f(r * t.cos(), r * t.sin()))
    }
}

fn whole(a: i64) -> C {
    C::new(a, 0)
}

fn column(parts: &[i64]) -> Matrix<C> {
    Matrix::new(parts.iter().map(|a| vec![whole(*a)]).collect())
}

fn rounded(rows: &[&[f64]]) -> Matrix<F> {
    Matrix::new(
        rows.iter()
            .map(|row| row.iter().map(|a| fr(*a)).collect())
            .collect(),
    )
}

#[test]
fn test_bool_double_slit() {
    let state0 = column(&[0, 1, 0]);

    let transformation = Matrix::new(vec![
        vec![whole(0), whole(0), whole(1)],
        vec![whole(1), whole(0), whole(0)],
        vec![whole(0), whole(1), whole(0)],
    ]);

    assert_eq!(
        bool_double_slit(state0.copy(), transformation.copy(), 1),
        column(&[0, 0, 1])
    );
    assert_eq!(
        bool_double_slit(state0.copy(), transformation.copy(), 2),
        column(&[1, 0, 0])
    );
    assert_eq!(
        bool_double_slit(state0.copy(), transformation, 3),
        column(&[0, 1, 0])
    );
}

#[test]
fn test_generate_prob_matrix() {
    let half = 1.0 / 2.0;
    let thirth = 1.0 / 3.0;
    let b = setup_prob_matrix(2, fr(1.0 / 2 as f64), fr(1.0 / 3.0));

    let expected = rounded(&[
        &[0.0, 0.0, 0.0, 0.0, 0.0, 0.0, 0.0, 0.0],
        &[half, 0.0, 0.0, 0.0, 0.0, 0.0, 0.0, 0.0],
        &[half, 0.0, 0.0, 0.0, 0.0, 0.0, 0.0, 0.0],
        &[0.0, thirth, 0.0, 1.0, 0.0, 0.0, 0.0, 0.0],
        &[0.0, thirth, 0.0, 0.0, 1.0, 0.0, 0.0, 0.0],
        &[0.0, thirth, thirth, 0.0, 0.0, 1.0, 0.0, 0.0],
        &[0.0, 0.0, thirth, 0.0, 0.0, 0.0, 1.0, 0.0],
        &[0.0, 0.0, thirth, 0.0, 0.0, 0.0, 0.0, 1.0],
    ]);

    assert_eq!(b, expected);

    let b2 = setup_prob_matrix(1, fr(1.0 / 1 as f64), fr(1.0 / 3.0));

    let expected2 = rounded(&[
        &[0.0, 0.0, 0.0, 0.0, 0.0],
        &[1.0, 0.0, 0.0, 0.0, 0.0],
        &[0.0, thirth, 1.0, 0.0, 0.0],
        &[0.0, thirth, 0.0, 1.0, 0.0],
        &[0.0, thirth, 0.0, 0.0, 1.0],
    ]);

    assert_eq!(b2, expected2);
}

#[test]
fn test_prob_double_slit() {
    let (_transform, x) = prob_double_slit(2, fr(1.0 / 2 as f64), fr(1.0 / 3.0));

    let sixth = 1.0 / 6.0;
    let thirth = 1.0 / 3.0;
    let expected = rounded(&[
        &[0.0],
        &[0.0],
        &[0.0],
        &[sixth],
        &[sixth],
        &[thirth],
        &[sixth],
        &[sixth],
    ]);

    assert_eq!(x, expected);
}

fn amplitudes(slits: usize) -> (F, (F, F, F)) {
    let sixth = 1.0 / 6.0_f64.sqrt();
    (
        fr(1.0 / (slits as f64).sqrt()),
        (f(sixth, sixth), f(sixth, -sixth), f(-sixth, -sixth)),
    )
}

#[test]
fn test_quantum_double_slit() {
    let (from_source, to_targets) = amplitudes(2);
    let (_transform, x) = quantum_double_slit(2, from_source, to_targets);
    assert_eq!(x.data[5][0], fr(0.0));

    let (from_source, to_targets) = amplitudes(4);
    let (_transform, x2) = quantum_double_slit(4, from_source, to_targets);
    assert_eq!(x2.data[7][0], fr(0.0));
    assert_eq!(x2.data[9][0], fr(0.0));
    assert_eq!(x2.data[11][0], fr(0.0));
}

#[test]
fn the_places_of_an_experiment() {
    assert_eq!(slits_to_matrix_size(0), 2);
    assert_eq!(slits_to_matrix_size(1), 5);
    assert_eq!(slits_to_matrix_size(2), 8);
}

#[test]
fn the_transition_matrix_holds_the_amplitudes_that_it_was_given() {
    let b = setup_quantum_matrix(2, whole(2), (whole(3), whole(5), whole(7)));
    let expected = Matrix::new(
        [
            [0, 0, 0, 0, 0, 0, 0, 0],
            [2, 0, 0, 0, 0, 0, 0, 0],
            [2, 0, 0, 0, 0, 0, 0, 0],
            [0, 3, 0, 1, 0, 0, 0, 0],
            [0, 5, 0, 0, 1, 0, 0, 0],
            [0, 7, 3, 0, 0, 1, 0, 0],
            [0, 0, 5, 0, 0, 0, 1, 0],
            [0, 0, 7, 0, 0, 0, 0, 1],
        ]
        .iter()
        .map(|row| row.iter().map(|a| whole(*a)).collect())
        .collect(),
    );
    assert_eq!(b, expected);
}

#[test]
fn two_steps_take_the_source_to_the_targets() {
    let (transform, after) = quantum_double_slit(2, whole(2), (whole(3), whole(5), whole(7)));
    assert_eq!(after, column(&[0, 0, 0, 6, 10, 20, 10, 14]));
    let start = column(&[1, 0, 0, 0, 0, 0, 0, 0]);
    assert_eq!(transform.product(&start), after);
    let b = setup_quantum_matrix(2, whole(2), (whole(3), whole(5), whole(7)));
    assert_eq!(bool_double_slit(start, b, 2), after);
}

#[test]
fn no_step_leaves_the_state() {
    let state = column(&[4, 5]);
    let transformation = Matrix::new(vec![vec![whole(1), whole(2), whole(3)]]);
    assert_eq!(bool_double_slit(state.copy(), transformation, 0), state);
}
