use qsim::complex::{Scalar, C};
use qsim::executor::RunTimeError;
use qsim::matrix::Matrix;
use qsim::parser::ParseError;
use qsim::quantum_assembler::{run, run_with, QuantumSimError};

/// A complex number of two rounded parts.
#[derive(Debug, Copy, Clone, PartialEq)]
struct F {
    a: f64,
    b: f64,
}

fn f(a: f64, b: f64) -> F {
    F { a, b }
}

fn fr(a: f64) -> F {
    F { a, b: 0.0 }
}

impl Scalar for F {
    fn zero() -> F {
        fr(0.0)
    }
    fn one() -> F {
        fr(1.0)
    }
    fn plus(self, other: F) -> F {
        f(self.a + other.a, self.b + other.b)
    }
    fn minus(self, other: F) -> F {
        f(self.a - other.a, self.b - other.b)
    }
    fn times(self, other: F) -> F {
        f(
            self.a * other.a - self.b * other.b,
            self.a * other.b + self.b * other.a,
        )
    }
    fn conjugate(self) -> F {
        f(self.a, -self.b)
    }
    fn near(self, other: F) -> bool {
        (self.a - other.a).abs() < 1e-9 && (self.b - other.b).abs() < 1e-9
    }
    fn weight(self) -> u64 {
        ((self.a * self.a + self.b * self.b) * 1_073_741_824.0).round() as u64
    }
    fn polar(scale: u64, turn: u64, turns: u64) -> Option<F> {
        if scale == 0 || turns == 0 {
            return None;
        }
        let r = 1.0 / (scale as f64).sqrt();
        let t = 2.0 * std::f64::consts::PI * (turn as f64) / (turns as f64);
        Some(f(r * t.cos(), r * t.sin()))
    }
}

#[test]
fn a_program_text_gives_its_measurement_log() {
    let log = run::<C>("INITIALIZE R 2\nMEASURE R RES\n".to_string()).unwrap();
    assert_eq!(log.len(), 1);
    assert!(log.contains_key("RES"));
    assert_eq!(log.get("RES").unwrap().1, "00");
    assert_eq!(
        log.get("RES").unwrap().0,
        Matrix::new(vec![
            vec![C::new(1, 0)],
            vec![C::new(0, 0)],
            vec![C::new(0, 0)],
            vec![C::new(0, 0)]
        ])
    );
}

#[test]
fn a_program_without_measurements_gives_an_empty_log() {
    let log = run::<C>("INITIALIZE R 2\nU TENSOR G_CNOT G_I_2\n".to_string()).unwrap();
    assert_eq!(log.len(), 0);
    assert_eq!(run::<C>(String::new()).unwrap().len(), 0);
}

#[test]
fn later_measurements_replace_earlier_ones_of_the_same_name() {
    let program = "INITIALIZE R 1\nMEASURE R RES\nAPPLY G_H R\nMEASURE R RES";
    let half: u128 = F::weight(fr(std::f64::consts::FRAC_1_SQRT_2)) as u128;
    let log = run_with::<F>(program.to_string(), vec![0, half]).unwrap();
    assert_eq!(log.len(), 1);
    assert_eq!(log.get("RES").unwrap().1, "1");
}

#[test]
fn a_text_that_is_no_program_gives_its_parse_error() {
    assert_eq!(
        run::<C>("INITIALIZE R 2\nMEASURE R".to_string()),
        Err(QuantumSimError::ParseError(ParseError::SyntaxError(
            "Invalid action pattern: MEASURE R".to_string()
        )))
    );
    assert_eq!(
        run_with::<F>("R R".to_string(), vec![1, 2, 3]),
        Err(QuantumSimError::ParseError(ParseError::SyntaxError(
            "Invalid action pattern: R R".to_string()
        )))
    );
}

#[test]
fn a_program_that_fails_gives_its_runtime_error_and_no_log() {
    assert_eq!(
        run::<C>("INITIALIZE R 2\nMEASURE R RES\nAPPLY U R".to_string()),
        Err(QuantumSimError::RuntimeError(RunTimeError::SyntaxError(
            "Variable not found".to_string()
        )))
    );
    assert_eq!(
        run::<C>("INITIALIZE R 1\nAPPLY G_H R".to_string()),
        Err(QuantumSimError::RuntimeError(RunTimeError::NotImplemented))
    );
    assert_eq!(
        run::<F>("INITIALIZE R 1\nAPPLY G_X R".to_string()),
        Err(QuantumSimError::RuntimeError(RunTimeError::NotImplemented))
    );
}

#[test]
fn errors_of_the_assembler_as_text() {
    assert_eq!(
        QuantumSimError::ParseError(ParseError::SyntaxError("x".to_string())).to_string(),
        "Syntax error: x"
    );
    assert_eq!(
        QuantumSimError::RuntimeError(RunTimeError::SyntaxError("y".to_string())).to_string(),
        "Syntax error: y"
    );
    assert_eq!(
        QuantumSimError::RuntimeError(RunTimeError::NotImplemented).to_string(),
        "Not implemented"
    );
    assert_eq!(
        QuantumSimError::ParseError(ParseError::NotImplemented).to_string(),
        "Not implemented"
    );
}

#[test]
fn the_inverse_fourier_transform_undoes_the_fourier_phases() {
    // G_QFTI_1 is the Hadamard gate: applied twice it gives the state back
    let program = "INITIALIZE R 1\nAPPLY G_QFTI_1 R\nAPPLY G_QFTI_1 R\nMEASURE R RES";
    for draw in [0u128, 1 << 29, (1 << 30) - 1] {
        let log = run_with::<F>(program.to_string(), vec![draw]).unwrap();
        assert_eq!(log.get("RES").unwrap().1, "0");
    }
}
