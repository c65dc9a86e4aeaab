use qsim::complex::{Scalar, C};
use qsim::gates::{cnot, hadamard, phase_shift, quantum_fourier, unitary_modular};
use qsim::matrix::Matrix;

fn c(a: i64) -> C {
    C::new(a, 0)
}

fn ci(a: i64, b: i64) -> C {
    C::new(a, b)
}

/// A complex number of two rounded parts.
#[derive(Debug, Copy, Clone, PartialEq)]
struct F {
    a: f64,
    b: f64,
}

fn f(a: f64, b: f64) -> F {
    F { a, b }
}

fn fr(a: f64) -> F {
    F { a, b: 0.0 }
}

impl Scalar for F {
    fn zero() -> F {
        fr(0.0)
    }
    fn one() -> F {
        fr(1.0)
    }
    fn plus(self, other: F) -> F {
        f(self.a + other.a, self.b + other.b)
    }
    fn minus(self, other: F) -> F {
        f(self.a - other.a, self.b - other.b)
    }
    fn times(self, other: F) -> F {
        f(
            self.a * other.a - self.b * other.b,
            self.a * other.b + self.b * other.a,
        )
    }
    fn conjugate(self) -> F {
        f(self.a, -self.b)
    }
    fn near(self, other: F) -> bool {
        (self.a - other.a).abs() < 1e-9 && (self.b - other.b).abs() < 1e-9
    }
    fn weight(self) -> u64 {
        ((self.a * self.a + self.b * self.b) * 1_073_741_824.0).round() as u64
    }
    fn polar(scale: u64, turn: u64, turns: u64) -> Option<F> {
        if scale == 0 || turns == 0 {
            return None;
        }
        let r = 1.0 / (scale as f64).sqrt();
        let t = 2.0 * std::f64::consts::PI * (turn as f64) / (turns as f64);
        Some(f(r * t.cos(), r * t.sin()))
    }
}

#[test]
fn test_unitary_modular() {
    let a = 2;
    let n = 3;
    let m = unitary_modular::<C>(a, n);

    assert_eq!(m.size(), (64, 64));
    assert_eq!(m.data[1][0], c(1));
    assert_eq!(m.data[62][60], c(1));

    let mut vec = Matrix::<C>::zero(64, 1);
    for i in 0..16 {
        vec = vec.set(i * 4, 0, c(5));
    }

    assert_eq!(vec.data[0][0], c(5));
    assert_eq!(vec.data[4][0], c(5));
    assert_eq!(vec.data[5][0], c(0));
    assert_eq!(vec.data[60][0], c(5));

    let unitary_apply = m * vec;

    assert_eq!(unitary_apply.data[1][0], c(5));
    assert_eq!(unitary_apply.data[6][0], c(5));
    assert_eq!(unitary_apply.data[8][0], c(0));
    assert_eq!(unitary_apply.data[9][0], c(5));
    assert_eq!(unitary_apply.data[10][0], c(0));
    assert_eq!(unitary_apply.data[11][0], c(0));
    assert_eq!(unitary_apply.data[62][0], c(5));
}

#[test]
fn tetst_qft() {
    let m = quantum_fourier::<F>(2).unwrap();

    let half = fr(0.5);

    let res = Matrix::new(vec![
        vec![fr(1.0), fr(1.0), fr(1.0), fr(1.0)],
        vec![fr(1.0), f(0.0, 1.0), fr(-1.0), f(0.0, -1.0)],
        vec![fr(1.0), fr(-1.0), fr(1.0), fr(-1.0)],
        vec![fr(1.0), f(0.0, -1.0), fr(-1.0), f(0.0, 1.0)],
    ])
    .scalar_mul(half);

    assert!(m.near(&res));
}

#[test]
fn fourier_transform_of_three_qubits_uses_eighth_roots() {
    let m = quantum_fourier::<F>(3).unwrap();
    assert_eq!(m.size(), (8, 8));
    let base = 1.0 / 8.0_f64.sqrt();
    let w = std::f64::consts::FRAC_1_SQRT_2;
    assert!(m.at(1, 1).near(f(base * w, base * w)));
    assert!(m.at(1, 2).near(f(0.0, base)));
    assert!(m.at(3, 5).near(f(base * w, base * -w)));
    assert!(m.at(7, 7).near(f(base * w, base * w)));
    assert!(m.is_unitary());
}

#[test]
fn fourier_transform_is_unitary() {
    for k in 0..5 {
        let m = quantum_fourier::<F>(k).unwrap();
        assert!(m.is_unitary());
        assert!(m.product(&m.adjoint()).near(&Matrix::identity(1 << k)));
    }
}

#[test]
fn exact_numbers_hold_the_trivial_fourier_transform_only() {
    assert_eq!(quantum_fourier::<C>(0), Some(Matrix::new(vec![vec![c(1)]])));
    assert_eq!(quantum_fourier::<C>(1), None);
    assert_eq!(quantum_fourier::<C>(2), None);
}

#[test]
fn hadamard_gate() {
    let h = hadamard::<F>().unwrap();
    let s = std::f64::consts::FRAC_1_SQRT_2;
    let want = Matrix::new(vec![vec![fr(s), fr(s)], vec![fr(s), fr(-s)]]);
    assert!(h.near(&want));
    assert!(h.is_unitary());
    assert!(h.is_hermitian());
    assert_eq!(hadamard::<C>(), None);
}

#[test]
fn controlled_not_gate() {
    let want = Matrix::new(vec![
        vec![c(1), c(0), c(0), c(0)],
        vec![c(0), c(1), c(0), c(0)],
        vec![c(0), c(0), c(0), c(1)],
        vec![c(0), c(0), c(1), c(0)],
    ]);
    assert_eq!(cnot::<C>(), want);
    assert!(cnot::<C>().is_unitary());
    assert!(cnot::<F>().is_unitary());
}

#[test]
fn phase_shift_gate() {
    assert_eq!(
        phase_shift::<C>(2),
        Some(Matrix::new(vec![vec![c(1), c(0)], vec![c(0), ci(0, 1)]]))
    );
    assert_eq!(
        phase_shift::<C>(1),
        Some(Matrix::new(vec![vec![c(1), c(0)], vec![c(0), c(-1)]]))
    );
    assert_eq!(phase_shift::<C>(4), None);
    assert_eq!(phase_shift::<C>(0), None);
    assert_eq!(phase_shift::<F>(0), None);
    let r4 = phase_shift::<F>(4).unwrap();
    let s = std::f64::consts::FRAC_1_SQRT_2;
    assert!(r4.near(&Matrix::new(vec![
        vec![fr(1.0), fr(0.0)],
        vec![fr(0.0), f(s, s)]
    ])));
    assert!(r4.is_unitary());
    assert_eq!(phase_shift::<F>(u64::MAX), None);
}

#[test]
fn modular_exponentiation_permutes_all_basis_states() {
    let m = unitary_modular::<C>(2, 3);
    // x = 1, y = 3: a^x mod n = 2, and 3 xor 2 = 1
    assert_eq!(m.at(4 + 1, 4 + 3), c(1));
    assert_eq!(m.at(4 + 3, 4 + 3), c(0));
    // x = 0: a^0 = 1, so y and y xor 1 change places
    assert_eq!(m.at(1, 0), c(1));
    assert_eq!(m.at(0, 1), c(1));
    assert_eq!(m.at(3, 2), c(1));
    assert!(m.is_unitary());
    assert_eq!(m.product(&m), Matrix::identity(64));
    for j in 0..64 {
        let ones: usize = (0..64).filter(|i| m.at(*i, j) == c(1)).count();
        assert_eq!(ones, 1);
    }
}

#[test]
fn modular_exponentiation_for_modulus_one() {
    let m = unitary_modular::<C>(5, 1);
    assert_eq!(m.size(), (8, 8));
    // a^0 is taken as 1 even modulo 1; every later power is 0
    assert_eq!(m.at(1, 0), c(1));
    assert_eq!(m.at(2, 2), c(1));
    assert_eq!(m.at(7, 7), c(1));
    assert!(m.is_unitary());
}
