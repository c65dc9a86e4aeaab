use qsim::complex::{Scalar, C};
use qsim::matrix::Matrix;
use qsim::quantum_sim::{
    apply_transformation, mean_transition, measure_partial_vec, measure_partial_vec_with,
    measure_vec, measure_vec_with, outcome_index, prob_at, qbit_length, total_weight,
    probabilities, transition_amplitude, variance_transition, weights_of, MeasureError,
};

fn ci(a: i64, b: i64) -> C {
    C::new(a, b)
}

fn exact_vector(values: Vec<i64>) -> Matrix<C> {
    Matrix::new(values.into_iter().map(|v| vec![C::new(v, 0)]).collect())
}

fn vector(values: Vec<f64>) -> Matrix<F> {
    Matrix::new(values.into_iter().map(|v| vec![fr(v)]).collect())
}

/// A complex number of two rounded parts.
#[derive(Debug, Copy, Clone, PartialEq)]
struct F {
    a: f64,
    b: f64,
}

fn f(a: f64, b: f64) -> F {
    F { a, b }
}

fn fr(a: f64) -> F {
    F { a, b: 0.0 }
}

impl Scalar for F {
    fn zero() -> F {
        fr(0.0)
    }
    fn one() -> F {
        fr(1.0)
    }
    fn plus(self, other: F) -> F {
        f(self.a + other.a, self.b + other.b)
    }
    fn minus(self, other: F) -> F {
        f(self.a - other.a, self.b - other.b)
    }
    fn times(self, other: F) -> F {
        f(
            self.a * other.a - self.b * other.b,
            self.a * other.b + self.b * other.a,
        )
    }
    fn conjugate(self) -> F {
        f(self.a, -self.b)
    }
    fn near(self, other: F) -> bool {
        (self.a - other.a).abs() < 1e-9 && (self.b - other.b).abs() < 1e-9
    }
    fn weight(self) -> u64 {
        ((self.a * self.a + self.b * self.b) * 1_073_741_824.0).round() as u64
    }
    fn polar(scale: u64, turn: u64, turns: u64) -> Option<F> {
        if scale == 0 || turns == 0 {
            return None;
        }
        let r = 1.0 / (scale as f64).sqrt();
        let t = 2.0 * std::f64::consts::PI * (turn as f64) / (turns as f64);
        Some(f(r * t.cos(), r * t.sin()))
    }
}

#[test]
fn test_measure_vec() {
    let m = vector(vec![0.0, 0.0, 0.0, 1.0]);
    let res = measure_vec(&m);
    assert_eq!(res, Ok("11".to_string()));
}

#[test]
fn test_measure_prob() {
    let m = vector(vec![0.0, 0.0, 0.7, 0.5]);
    let res = measure_vec(&m).unwrap();

    assert!(res == "10" || res == "11");
}

#[test]
fn test_partial_measure() {
    let m = vector(vec![0.0, 1.0, 0.7, 0.5]);
    let res = measure_partial_vec(&m, 1, 2).unwrap().0;

    assert!(
        res == vector(vec![0.0, 0.0, 0.7, 0.0]) || res == vector(vec![0.0, 1.0, 0.0, 0.5])
    );

    let m = vector(vec![1.0, 1.0, 1.0, 1.0]);
    let res = measure_partial_vec(&m, 0, 2).unwrap().0;
    let norm: f64 = res
        .data
        .iter()
        .map(|row| row[0].a * row[0].a + row[0].b * row[0].b)
        .sum::<f64>()
        .sqrt();
    assert_eq!(norm, 1.0);
}

#[test]
fn a_vector_of_five_is_no_state() {
    let m = vector(vec![0.0, 0.0, 0.0, 1.0, 1.0]);
    assert_eq!(measure_vec(&m), Err(MeasureError::NotAQubitVector));
    assert_eq!(measure_vec_with(&m, 0), Err(MeasureError::NotAQubitVector));
    assert_eq!(
        measure_partial_vec(&m, 0, 1),
        Err(MeasureError::NotAQubitVector)
    );
    assert_eq!(qbit_length(&m), None);
}

#[test]
fn qubit_lengths() {
    assert_eq!(qbit_length(&exact_vector(vec![1])), Some(0));
    assert_eq!(qbit_length(&exact_vector(vec![1, 0])), Some(1));
    assert_eq!(qbit_length(&exact_vector(vec![1, 0, 0, 0])), Some(2));
    assert_eq!(qbit_length(&exact_vector(vec![1, 0, 0])), None);
    assert_eq!(qbit_length(&exact_vector(vec![0; 1024])), Some(10));
    assert_eq!(qbit_length(&exact_vector(vec![0; 1023])), None);
    let wide = Matrix::new(vec![vec![C::new(1, 0), C::new(0, 0)]]);
    assert_eq!(qbit_length(&wide), None);
}

#[test]
fn probabilities_are_weights_over_their_sum() {
    let m = Matrix::new(vec![vec![ci(3, 4)], vec![ci(0, 0)], vec![ci(1, 0)], vec![ci(0, 2)]]);
    assert_eq!(prob_at(&m, 0), (25, 30));
    assert_eq!(prob_at(&m, 1), (0, 30));
    assert_eq!(prob_at(&m, 2), (1, 30));
    assert_eq!(prob_at(&m, 3), (4, 30));
    let sum: u128 = (0..4).map(|k| prob_at(&m, k).0 as u128).sum();
    assert_eq!(sum, prob_at(&m, 0).1);
    assert_eq!(weights_of(&m), vec![25, 0, 1, 4]);
    assert_eq!(total_weight(&vec![25, 0, 1, 4]), 30);
    assert_eq!(total_weight(&vec![u64::MAX, u64::MAX]), 2 * (u64::MAX as u128));
}

#[test]
fn the_draw_picks_the_first_state_whose_running_sum_exceeds_it() {
    let w = vec![25, 0, 1, 4];
    for draw in 0..25 {
        assert_eq!(outcome_index(&w, draw), 0);
    }
    assert_eq!(outcome_index(&w, 25), 2);
    for draw in 26..30 {
        assert_eq!(outcome_index(&w, draw), 3);
    }
    assert_eq!(outcome_index(&vec![0, 0, 7], 0), 2);
}

#[test]
fn measurement_with_a_given_draw() {
    let m = Matrix::new(vec![vec![ci(3, 4)], vec![ci(0, 0)], vec![ci(1, 0)], vec![ci(0, 2)]]);
    assert_eq!(measure_vec_with(&m, 0), Ok("00".to_string()));
    assert_eq!(measure_vec_with(&m, 24), Ok("00".to_string()));
    assert_eq!(measure_vec_with(&m, 25), Ok("10".to_string()));
    assert_eq!(measure_vec_with(&m, 26), Ok("11".to_string()));
    assert_eq!(measure_vec_with(&m, 29), Ok("11".to_string()));
    // the draw is reduced modulo the sum of the weights
    assert_eq!(measure_vec_with(&m, 30), Ok("00".to_string()));
    assert_eq!(measure_vec_with(&m, 30 + 25), Ok("10".to_string()));
}

#[test]
fn a_state_of_no_weight_is_measured_as_its_first_basis_state() {
    let m = exact_vector(vec![0, 0]);
    assert_eq!(measure_vec(&m), Ok("0".to_string()));
    assert_eq!(measure_vec_with(&m, 5), Ok("0".to_string()));
    assert_eq!(
        measure_partial_vec_with(&m, 0, 1, 5),
        Ok((exact_vector(vec![0, 0]), "0".to_string()))
    );
    // the amplitudes cancel in the sum for the one reading of no qubits
    let cancel = exact_vector(vec![1, -1]);
    assert_eq!(
        measure_partial_vec_with(&cancel, 0, 0, 0),
        Ok((exact_vector(vec![1, -1]), "".to_string()))
    );
    // and in the sums for both readings of the first of two qubits
    let pair = exact_vector(vec![1, -1, 0, 0]);
    assert_eq!(
        measure_partial_vec_with(&pair, 0, 1, 7),
        Ok((exact_vector(vec![1, -1, 0, 0]), "0".to_string()))
    );
    assert_eq!(
        measure_partial_vec(&pair, 0, 1),
        Ok((exact_vector(vec![1, -1, 0, 0]), "0".to_string()))
    );
    // the second qubit alone has weight
    assert_eq!(
        measure_partial_vec_with(&pair, 1, 2, 1),
        Ok((exact_vector(vec![0, -1, 0, 0]), "1".to_string()))
    );
}

#[test]
fn random_measurement_never_gives_a_state_of_no_weight() {
    let m = exact_vector(vec![0, 2, 0, 0, 0, 0, 1, 0]);
    for _ in 0..200 {
        let s = measure_vec(&m).unwrap();
        assert!(s == "001" || s == "110");
    }
}

#[test]
fn partial_measurement_with_a_given_draw() {
    // amplitudes by basis state: 000 -> 1, 011 -> 2, 101 -> 3, 110 -> 4
    let m = exact_vector(vec![1, 0, 0, 2, 0, 3, 4, 0]);

    // qubit 0 alone: reading 0 has the sum 3 (weight 9), reading 1 the sum 7 (weight 49)
    let (state, bits) = measure_partial_vec_with(&m, 0, 1, 8).unwrap();
    assert_eq!(bits, "0");
    assert_eq!(state, exact_vector(vec![1, 0, 0, 2, 0, 0, 0, 0]));
    let (state, bits) = measure_partial_vec_with(&m, 0, 1, 9).unwrap();
    assert_eq!(bits, "1");
    assert_eq!(state, exact_vector(vec![0, 0, 0, 0, 0, 3, 4, 0]));

    // qubits 1 and 2: readings 00 -> 1, 01 -> 3, 10 -> 4, 11 -> 2
    let (state, bits) = measure_partial_vec_with(&m, 1, 3, 0).unwrap();
    assert_eq!(bits, "00");
    assert_eq!(state, exact_vector(vec![1, 0, 0, 0, 0, 0, 0, 0]));
    let (state, bits) = measure_partial_vec_with(&m, 1, 3, 1).unwrap();
    assert_eq!(bits, "01");
    assert_eq!(state, exact_vector(vec![0, 0, 0, 0, 0, 3, 0, 0]));
    let (state, bits) = measure_partial_vec_with(&m, 1, 3, 1 + 9).unwrap();
    assert_eq!(bits, "10");
    assert_eq!(state, exact_vector(vec![0, 0, 0, 0, 0, 0, 4, 0]));
    let (state, bits) = measure_partial_vec_with(&m, 1, 3, 1 + 9 + 16).unwrap();
    assert_eq!(bits, "11");
    assert_eq!(state, exact_vector(vec![0, 0, 0, 2, 0, 0, 0, 0]));

    // the middle qubit: reading 0 -> 1 + 3, reading 1 -> 2 + 4
    let (state, bits) = measure_partial_vec_with(&m, 1, 2, 16).unwrap();
    assert_eq!(bits, "1");
    assert_eq!(state, exact_vector(vec![0, 0, 0, 2, 0, 0, 4, 0]));
}

#[test]
fn partial_measurement_of_no_qubit_and_of_all_qubits() {
    let m = exact_vector(vec![1, 0, 0, 2]);
    let (state, bits) = measure_partial_vec_with(&m, 1, 1, 3).unwrap();
    assert_eq!(bits, "");
    assert_eq!(state, m);
    let (state, bits) = measure_partial_vec_with(&m, 0, 2, 1).unwrap();
    assert_eq!(bits, "11");
    assert_eq!(state, exact_vector(vec![0, 0, 0, 2]));
}

#[test]
fn ranges_outside_the_register_are_errors() {
    let m = exact_vector(vec![1, 0, 0, 2]);
    assert_eq!(
        measure_partial_vec_with(&m, -1, 1, 0),
        Err(MeasureError::InvalidRange)
    );
    assert_eq!(
        measure_partial_vec_with(&m, 2, 1, 0),
        Err(MeasureError::InvalidRange)
    );
    assert_eq!(
        measure_partial_vec_with(&m, 0, 3, 0),
        Err(MeasureError::InvalidRange)
    );
    assert_eq!(
        measure_partial_vec(&m, 1, 3),
        Err(MeasureError::InvalidRange)
    );
}

#[test]
fn transition_amplitudes() {
    let from = Matrix::new(vec![vec![ci(1, 2)], vec![ci(0, -1)]]);
    let to = Matrix::new(vec![vec![ci(3, 0)], vec![ci(1, 1)]]);
    // conj(3) (1 + 2i) + conj(1 + i) (-i) = 3 + 6i - i - 1 = 2 + 5i
    assert_eq!(transition_amplitude(&from, &to), ci(2, 5));
    assert_eq!(transition_amplitude(&to, &from), ci(2, -5));
    assert_eq!(transition_amplitude(&from, &from), ci(6, 0));
}

#[test]
fn operators_act_on_states() {
    let ket = exact_vector(vec![1, 2]);
    let flip = Matrix::new(vec![vec![ci(0, 0), ci(1, 0)], vec![ci(1, 0), ci(0, 0)]]);
    assert_eq!(apply_transformation(&ket, &flip), exact_vector(vec![2, 1]));
}

#[test]
fn mean_and_variance_of_an_observable() {
    // an eigenstate: the mean is the eigenvalue and the variance is zero
    let ket = exact_vector(vec![0, 1]);
    let t = Matrix::new(vec![vec![ci(2, 0), ci(0, 0)], vec![ci(0, 0), ci(-3, 0)]]);
    assert_eq!(mean_transition(&ket, &t), ci(-3, 0));
    assert_eq!(variance_transition(&ket, &t), ci(0, 0));
    // a state of squared norm 2 between two eigenstates
    let ket = exact_vector(vec![1, 1]);
    assert_eq!(mean_transition(&ket, &t), ci(-1, 0));
    // (t + 1)^2 = diag(9, 4)
    assert_eq!(variance_transition(&ket, &t), ci(13, 0));
    // the spin flip between its eigenstates, in rounded numbers
    let s = std::f64::consts::FRAC_1_SQRT_2;
    let up = vector(vec![1.0, 0.0]);
    let flip = Matrix::new(vec![vec![fr(0.0), fr(1.0)], vec![fr(1.0), fr(0.0)]]);
    assert!(mean_transition(&up, &flip).near(fr(0.0)));
    assert!(variance_transition(&up, &flip).near(fr(1.0)));
    let plus = vector(vec![s, s]);
    assert!(mean_transition(&plus, &flip).near(fr(1.0)));
    assert!(variance_transition(&plus, &flip).near(fr(0.0)));
}

#[test]
fn the_probabilities_of_a_state_add_up_to_one() {
    let m = Matrix::new(vec![vec![ci(3, 4)], vec![ci(0, 0)], vec![ci(1, 0)], vec![ci(0, 2)]]);
    let (weights, sum) = probabilities(&m);
    assert_eq!(weights, vec![25, 0, 1, 4]);
    assert_eq!(sum, 30);
    assert_eq!(weights.iter().map(|w| *w as u128).sum::<u128>(), sum);
}
