use qsim::complex::{Scalar, C};
use qsim::matrix::{Matrix, ShapeError};

fn c(a: i64) -> C {
    C::new(a, 0)
}

fn ci(a: i64, b: i64) -> C {
    C::new(a, b)
}

fn int_matrix(rows: Vec<Vec<i64>>) -> Matrix<C> {
    Matrix::new(
        rows.into_iter()
            .map(|row| row.into_iter().map(c).collect())
            .collect(),
    )
}

/// A complex number of two rounded parts, to run the kernel on fractions.
#[derive(Debug, Copy, Clone, PartialEq)]
struct F {
    a: f64,
    b: f64,
}

fn f(a: f64, b: f64) -> F {
    F { a, b }
}

fn fr(a: f64) -> F {
    F { a, b: 0.0 }
}

impl Scalar for F {
    fn zero() -> F {
        fr(0.0)
    }
    fn one() -> F {
        fr(1.0)
    }
    fn plus(self, other: F) -> F {
        f(self.a + other.a, self.b + other.b)
    }
    fn minus(self, other: F) -> F {
        f(self.a - other.a, self.b - other.b)
    }
    fn times(self, other: F) -> F {
        f(
            self.a * other.a - self.b * other.b,
            self.a * other.b + self.b * other.a,
        )
    }
    fn conjugate(self) -> F {
        f(self.a, -self.b)
    }
    fn near(self, other: F) -> bool {
        (self.a - other.a).abs() < 1e-9 && (self.b - other.b).abs() < 1e-9
    }
    fn weight(self) -> u64 {
        ((self.a * self.a + self.b * self.b) * 1_073_741_824.0).round() as u64
    }
    fn polar(scale: u64, turn: u64, turns: u64) -> Option<F> {
        if scale == 0 || turns == 0 {
            return None;
        }
        let r = 1.0 / (scale as f64).sqrt();
        let t = 2.0 * std::f64::consts::PI * (turn as f64) / (turns as f64);
        Some(f(r * t.cos(), r * t.sin()))
    }
}

#[test]
fn matrix_test_matrix_macro() {
    let m = Matrix::new(vec![vec![c(1), c(2)], vec![c(3), c(4)]]);
    assert_eq!(m.data, vec![vec![c(1), c(2)], vec![c(3), c(4)]]);
}

#[test]
fn matrix_test_matrix_new() {
    let m = Matrix::new(vec![vec![c(1), c(2)], vec![c(3), c(4)]]);
    assert_eq!(m.data, vec![vec![c(1), c(2)], vec![c(3), c(4)]]);
}

#[test]
fn matrix_test_matrix_identity() {
    let m = Matrix::<C>::identity(3);
    assert_eq!(
        m.data,
        vec![
            vec![c(1), c(0), c(0)],
            vec![c(0), c(1), c(0)],
            vec![c(0), c(0), c(1)]
        ]
    );
}

#[test]
fn matrix_test_matrix_transpose() {
    let m = int_matrix(vec![vec![1, 2], vec![3, 4]]);
    let m2 = int_matrix(vec![vec![1, 3], vec![2, 4]]);
    let t = m.transpose();
    assert_eq!(t, m2);
}

#[test]
fn matrix_test_matrix_add() {
    let m1 = int_matrix(vec![vec![1, 2], vec![3, 4]]);
    let m2 = int_matrix(vec![vec![5, 6], vec![7, 8]]);

    let m3 = m1 + m2;

    let res = int_matrix(vec![vec![6, 8], vec![10, 12]]);
    assert_eq!(m3, res);
}

#[test]
fn matrix_test_matrix_scalar_mul() {
    let m = int_matrix(vec![vec![1, 2], vec![3, 4]]);
    let m2 = m.scalar_mul(c(2));

    let res = int_matrix(vec![vec![2, 4], vec![6, 8]]);
    assert_eq!(m2, res);
}

#[test]
fn matrix_test_matrix_negative_inverse() {
    let m = int_matrix(vec![vec![1, 2], vec![3, 4]]);
    let m2 = m.negative_inverse();

    let res = int_matrix(vec![vec![-1, -2], vec![-3, -4]]);
    assert_eq!(m2, res);
}

#[test]
fn matrix_test_matrix_mul() {
    let m1 = int_matrix(vec![vec![1, 2], vec![3, 4]]);
    let m2 = int_matrix(vec![vec![5, 6], vec![7, 8]]);

    let m3 = m1 * m2;

    let res = int_matrix(vec![vec![19, 22], vec![43, 50]]);
    assert_eq!(m3, res);
}

#[test]
fn matrix_test_matrix_dot() {
    let m1 = int_matrix(vec![vec![1, 2], vec![3, 4]]);
    let m2 = int_matrix(vec![vec![5, 6], vec![7, 8]]);

    let res = m1.dot(m2);
    assert_eq!(res, c(70));
}

#[test]
fn matrix_test_matrix_conjugate() {
    let m = Matrix::new(vec![vec![ci(1, 1), ci(0, 2)], vec![c(3), ci(4, -1)]]);
    let m2 = m.conjugate();

    let res = Matrix::new(vec![vec![ci(1, -1), ci(0, -2)], vec![c(3), ci(4, 1)]]);
    assert_eq!(m2, res);
}

#[test]
fn matrix_test_matrix_is_unary() {
    let m = Matrix::new(vec![
        vec![fr(1.0_f64.cos()), fr(1.0_f64.sin() * -1.0), fr(0.0)],
        vec![fr(1.0_f64.sin()), fr(1.0_f64.cos()), fr(0.0)],
        vec![fr(0.0), fr(0.0), fr(1.0)],
    ]);
    assert!(m.is_unitary());

    let m2 = int_matrix(vec![vec![5, 6], vec![7, 8]]);
    assert!(!m2.is_hermitian());
}

#[test]
fn matrix_test_matrix_is_hermitian() {
    let m = Matrix::new(vec![
        vec![c(5), ci(4, 5), ci(6, -16)],
        vec![ci(4, -5), c(13), c(7)],
        vec![ci(6, 16), c(7), c(-2)],
    ]);

    assert!(m.is_hermitian());

    let m2 = int_matrix(vec![vec![5, 6], vec![7, 8]]);
    assert!(!m2.is_hermitian());
}

#[test]
fn matrix_test_matrix_tensor() {
    let m1 = int_matrix(vec![vec![1], vec![2]]);
    let m2 = int_matrix(vec![vec![5], vec![6], vec![7]]);

    let m3 = m1.tensor(&m2);

    let res = Matrix::new(vec![
        vec![c(1) * c(5)],
        vec![c(1) * c(6)],
        vec![c(1) * c(7)],
        vec![c(2) * c(5)],
        vec![c(2) * c(6)],
        vec![c(2) * c(7)],
    ]);
    assert_eq!(m3, res);

    let a0 = f(1.0, 2.0);
    let a1 = fr(0.0);
    let a2 = f(1.0, 10.0);
    let a3 = f(1.4, 1.5);

    let b0 = fr(1.0);
    let b1 = fr(2.0);
    let b2 = fr(3.0);
    let b3 = fr(4.0);
    let b4 = f(5.1, -1.1);
    let b5 = f(4.0, 0.0);
    let b6 = fr(4.0);
    let b7 = f(3.0, -1.0);
    let b8 = fr(1.3);
    let b9 = f(1.0, 10.0);

    let m4 = Matrix::new(vec![vec![a0, a1], vec![a2, a3]]);

    let m5 = Matrix::new(vec![
        vec![b0, b1, b2],
        vec![b3, b4, b5],
        vec![b6, b7, b8],
        vec![b9, b0, b1],
    ]);

    let t = |x: F, y: F| x.times(y);
    let res2 = Matrix::new(vec![
        vec![t(a0, b0), t(a0, b1), t(a0, b2), t(a1, b0), t(a1, b1), t(a1, b2)],
        vec![t(a0, b3), t(a0, b4), t(a0, b5), t(a1, b3), t(a1, b4), t(a1, b5)],
        vec![t(a0, b6), t(a0, b7), t(a0, b8), t(a1, b6), t(a1, b7), t(a1, b8)],
        vec![t(a0, b9), t(a0, b0), t(a0, b1), t(a1, b9), t(a1, b0), t(a1, b1)],
        vec![t(a2, b0), t(a2, b1), t(a2, b2), t(a3, b0), t(a3, b1), t(a3, b2)],
        vec![t(a2, b3), t(a2, b4), t(a2, b5), t(a3, b3), t(a3, b4), t(a3, b5)],
        vec![t(a2, b6), t(a2, b7), t(a2, b8), t(a3, b6), t(a3, b7), t(a3, b8)],
        vec![t(a2, b9), t(a2, b0), t(a2, b1), t(a3, b9), t(a3, b0), t(a3, b1)],
    ]);
    assert_eq!(m4.tensor(&m5), res2);
}

#[test]
fn test_matrix_is_vector() {
    let m = int_matrix(vec![vec![1, 2, 3]]);
    assert!(!m.is_vector());
    assert!(m.transpose().is_vector());

    let m2 = int_matrix(vec![vec![1, 2], vec![3, 4]]);
    assert!(!m2.is_vector());
}

#[test]
fn test_arb_matrix_mult() {
    let vec = int_matrix(vec![
        vec![5],
        vec![0],
        vec![5],
        vec![0],
        vec![5],
        vec![0],
        vec![5],
        vec![0],
    ]);
    let mat = Matrix::<C>::zero_sq(8);

    let mat = mat.set(0, 0, c(1));
    let mat = mat.set(3, 2, c(1));
    let mat = mat.set(4, 4, c(1));
    let mat = mat.set(7, 6, c(1));

    assert_eq!(
        mat * vec,
        int_matrix(vec![
            vec![5],
            vec![0],
            vec![0],
            vec![5],
            vec![5],
            vec![0],
            vec![0],
            vec![5]
        ])
    );
}

#[test]
fn shapes_that_do_not_fit_are_errors() {
    let a = int_matrix(vec![vec![1, 2], vec![3, 4]]);
    let b = int_matrix(vec![vec![1, 2, 3]]);
    assert_eq!(a.add(&b), Err(ShapeError));
    assert_eq!(a.multiply(&b), Err(ShapeError));
    assert_eq!(
        b.multiply(&b.transpose()),
        Ok(int_matrix(vec![vec![14]]))
    );
    assert_eq!(
        a.add(&a),
        Ok(int_matrix(vec![vec![2, 4], vec![6, 8]]))
    );
    assert_eq!(
        a.multiply(&a),
        Ok(int_matrix(vec![vec![7, 10], vec![15, 22]]))
    );
}

#[test]
fn product_of_shapes_two_by_three_and_three_by_one() {
    let a = int_matrix(vec![vec![1, 2, 3], vec![4, 5, 6]]);
    let v = int_matrix(vec![vec![1], vec![0], vec![-1]]);
    assert_eq!(a.product(&v), int_matrix(vec![vec![-2], vec![-2]]));
    assert_eq!(a.size(), (2, 3));
    assert_eq!(a.transpose().size(), (3, 2));
}

#[test]
fn zero_and_set() {
    let z = Matrix::<C>::zero(2, 3);
    assert_eq!(z, int_matrix(vec![vec![0, 0, 0], vec![0, 0, 0]]));
    let s = z.set(1, 2, c(9));
    assert_eq!(s, int_matrix(vec![vec![0, 0, 0], vec![0, 0, 9]]));
    assert_eq!(z, int_matrix(vec![vec![0, 0, 0], vec![0, 0, 0]]));
    assert_eq!(s.at(1, 2), c(9));
}

#[test]
fn adjoint_conjugates_and_transposes() {
    let m = Matrix::new(vec![vec![ci(1, 2), ci(3, 4), ci(5, 6)]]);
    assert_eq!(
        m.adjoint(),
        Matrix::new(vec![vec![ci(1, -2)], vec![ci(3, -4)], vec![ci(5, -6)]])
    );
}

#[test]
fn tensor_places_blocks() {
    let a = int_matrix(vec![vec![1, 2], vec![3, 4]]);
    let b = int_matrix(vec![vec![0, 1], vec![1, 0]]);
    assert_eq!(
        a.tensor(&b),
        int_matrix(vec![
            vec![0, 1, 0, 2],
            vec![1, 0, 2, 0],
            vec![0, 3, 0, 4],
            vec![3, 0, 4, 0],
        ])
    );
}

#[test]
fn tensor_is_associative_and_linear_on_samples() {
    let a = Matrix::new(vec![vec![ci(1, 2), ci(0, -1)]]);
    let a2 = Matrix::new(vec![vec![ci(-4, 0), ci(2, 2)]]);
    let b = Matrix::new(vec![vec![ci(3, 0)], vec![ci(1, 1)]]);
    let d = Matrix::new(vec![vec![ci(2, -3), ci(0, 5)], vec![ci(7, 0), ci(1, 1)]]);
    assert_eq!(a.tensor(&b).tensor(&d), a.tensor(&b.tensor(&d)));
    assert_eq!(
        a.sum(&a2).tensor(&b),
        a.tensor(&b).sum(&a2.tensor(&b))
    );
    assert_eq!(
        b.tensor(&a.sum(&a2)),
        b.tensor(&a).sum(&b.tensor(&a2))
    );
}

#[test]
fn adjoint_laws_on_samples() {
    let a = Matrix::new(vec![vec![ci(1, 2), ci(0, -1)], vec![ci(3, 3), ci(-2, 0)]]);
    let b = Matrix::new(vec![vec![ci(0, 1), ci(4, 0)], vec![ci(-1, -1), ci(2, 5)]]);
    assert_eq!(a.adjoint().adjoint(), a);
    assert_eq!(
        a.product(&b).adjoint(),
        b.adjoint().product(&a.adjoint())
    );
}

#[test]
fn identity_is_unitary_and_hermitian() {
    let id = Matrix::<C>::identity(4);
    assert!(id.is_unitary());
    assert!(id.is_hermitian());
    let not = int_matrix(vec![vec![1, 1], vec![0, 1]]);
    assert!(!not.is_unitary());
    let wide = int_matrix(vec![vec![1, 0, 0]]);
    assert!(!wide.is_hermitian());
    assert!(wide.is_unitary());
}

#[test]
fn nearness_of_matrices() {
    let a = Matrix::new(vec![vec![fr(0.5), fr(0.25)]]);
    let b = Matrix::new(vec![vec![fr(0.5 + 1e-12), fr(0.25)]]);
    let d = Matrix::new(vec![vec![fr(0.5 + 1e-6), fr(0.25)]]);
    assert!(a.near(&b));
    assert!(!a.near(&d));
}

#[test]
fn difference_of_matrices() {
    let a = int_matrix(vec![vec![5, 6], vec![7, 8]]);
    let b = int_matrix(vec![vec![1, 3], vec![5, 7]]);
    assert_eq!(a.difference(&b), int_matrix(vec![vec![4, 3], vec![2, 1]]));
    assert_eq!(a.difference(&a), Matrix::zero(2, 2));
}

#[test]
fn copies_are_equal() {
    let a = Matrix::new(vec![vec![ci(1, 2), ci(3, 4)], vec![ci(5, 6), ci(7, 8)]]);
    assert_eq!(a.copy(), a);
    let ragged = Matrix::new(vec![vec![c(1)], vec![], vec![c(2), c(3)]]);
    assert_eq!(ragged.copy(), ragged);
}

#[test]
fn test_matrix_macro() {
    let m = Matrix::new(vec![vec![c(1), c(2)], vec![c(3), c(4)]]);
    assert_eq!(m.data, vec![vec![c(1), c(2)], vec![c(3), c(4)]]);
}

#[test]
fn test_matrix_add() {
    let m1 = int_matrix(vec![vec![1, 2], vec![3, 4]]);
    let m2 = int_matrix(vec![vec![5, 6], vec![7, 8]]);

    let m3 = m1 + m2;

    let res = int_matrix(vec![vec![6, 8], vec![10, 12]]);
    assert_eq!(m3, res);
}

#[test]
fn test_matrix_mul() {
    let m1 = int_matrix(vec![vec![1, 2], vec![3, 4]]);
    let m2 = int_matrix(vec![vec![5, 6], vec![7, 8]]);

    let m3 = m1 * m2;

    let res = int_matrix(vec![vec![19, 22], vec![43, 50]]);
    assert_eq!(m3, res);
}

#[test]
fn scaling_from_the_left() {
    let m = Matrix::new(vec![vec![ci(1, 1), ci(0, 2)]]);
    assert_eq!(
        m.scaled_by(ci(0, 1)),
        Matrix::new(vec![vec![ci(-1, 1), ci(-2, 0)]])
    );
    assert_eq!(m.scaled_by(ci(0, 1)), m.scalar_mul(ci(0, 1)));
}

#[test]
fn the_unit_column_has_one_at_the_top() {
    assert_eq!(
        Matrix::<C>::unit_column(3),
        Matrix::new(vec![vec![ci(1, 0)], vec![ci(0, 0)], vec![ci(0, 0)]])
    );
    assert_eq!(
        Matrix::<C>::unit_column(1),
        Matrix::new(vec![vec![ci(1, 0)]])
    );
}
