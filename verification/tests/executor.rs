use qsim::complex::{Scalar, C};
use qsim::executor::{
    execute_ast_node, execute_script, execute_script_with, parse_func_application,
    parse_identifier, parse_literal, parse_var_assignment, unwrap_int, unwrap_matrix,
    unwrap_selection, validate_param_len, LiteralValue, QuantumMemory, RunTimeError,
};
use qsim::matrix::Matrix;
use qsim::parser::{parse, ASTNode, MemoryLocation};
use qsim::table::Table;
use std::rc::Rc;

fn c(a: i64) -> C {
    C::new(a, 0)
}

fn ci(a: i64, b: i64) -> C {
    C::new(a, b)
}

fn exact_vector(values: Vec<i64>) -> Matrix<C> {
    Matrix::new(values.into_iter().map(|v| vec![C::new(v, 0)]).collect())
}

fn syntax_error(reason: &str) -> RunTimeError {
    RunTimeError::SyntaxError(reason.to_string())
}

fn run_exact(program: &str, draws: Vec<u128>) -> Result<Table<(Matrix<C>, String)>, RunTimeError> {
    execute_script_with::<C>(parse(program.to_string()).unwrap(), draws)
}

fn run_rounded(program: &str, draws: Vec<u128>) -> Result<Table<(Matrix<F>, String)>, RunTimeError> {
    execute_script_with::<F>(parse(program.to_string()).unwrap(), draws)
}

/// A complex number of two rounded parts.
#[derive(Debug, Copy, Clone, PartialEq)]
struct F {
    a: f64,
    b: f64,
}

fn f(a: f64, b: f64) -> F {
    F { a, b }
}

fn fr(a: f64) -> F {
    F { a, b: 0.0 }
}

impl Scalar for F {
    fn zero() -> F {
        fr(0.0)
    }
    fn one() -> F {
        fr(1.0)
    }
    fn plus(self, other: F) -> F {
        f(self.a + other.a, self.b + other.b)
    }
    fn minus(self, other: F) -> F {
        f(self.a - other.a, self.b - other.b)
    }
    fn times(self, other: F) -> F {
        f(
            self.a * other.a - self.b * other.b,
            self.a * other.b + self.b * other.a,
        )
    }
    fn conjugate(self) -> F {
        f(self.a, -self.b)
    }
    fn near(self, other: F) -> bool {
        (self.a - other.a).abs() < 1e-9 && (self.b - other.b).abs() < 1e-9
    }
    fn weight(self) -> u64 {
        ((self.a * self.a + self.b * self.b) * 1_073_741_824.0).round() as u64
    }
    fn polar(scale: u64, turn: u64, turns: u64) -> Option<F> {
        if scale == 0 || turns == 0 {
            return None;
        }
        let r = 1.0 / (scale as f64).sqrt();
        let t = 2.0 * std::f64::consts::PI * (turn as f64) / (turns as f64);
        Some(f(r * t.cos(), r * t.sin()))
    }
}

#[test]
fn executor_test_init_and_measure_executor() {
    let ast = parse(
        "
        INITIALIZE R 2
        MEASURE R RES
        "
        .to_string(),
    );
    assert!(ast.is_ok());

    let res = execute_script::<F>(ast.unwrap());

    assert!(res.is_ok());

    let res = res.unwrap();
    assert!(res.contains_key("RES"));
    assert_eq!(
        res.get("RES").unwrap().0,
        Matrix::new(vec![vec![fr(1.0)], vec![fr(0.0)], vec![fr(0.0)], vec![fr(0.0)]])
    );
    assert_eq!(res.get("RES").unwrap().1, "00");
}

#[test]
fn executor_test_tensor_hadamar_and_apply() {
    let ast = parse(
        "
        INITIALIZE R 2
        U TENSOR G_H G_H
        APPLY U R
        MEASURE R RES
        "
        .to_string(),
    );
    assert!(ast.is_ok());

    let res = execute_script::<F>(ast.unwrap());

    assert!(res.is_ok());

    let res = res.unwrap();
    assert!(res.contains_key("RES"));
    assert!(res.get("RES").unwrap().0.near(&Matrix::new(vec![
        vec![fr(0.5)],
        vec![fr(0.5)],
        vec![fr(0.5)],
        vec![fr(0.5)]
    ])));
}

#[test]
fn executor_test_select() {
    let ast = parse(
        "
            INITIALIZE R 2
            U TENSOR G_H G_I_2
            APPLY U R
            SELECT S1 R 0 1
            MEASURE S1 RES1
            APPLY G_CNOT R
            MEASURE R RES2
        "
        .to_string(),
    );
    assert!(ast.is_ok());

    let res = execute_script::<F>(ast.unwrap());

    assert!(res.is_ok());

    let res = res.unwrap();
    assert!(res.contains_key("RES2"));
    let res2 = res.get("RES2").unwrap();
    assert!(res2.1 == "11" || res2.1 == "00");
}

#[test]
fn quantum_assembler_executor_test_init_and_measure_executor() {
    let ast = parse(
        "
        INITIALIZE R 2
        MEASURE R RES
        "
        .to_string(),
    );
    assert!(ast.is_ok());

    let res = execute_script::<F>(ast.unwrap());

    assert!(res.is_ok());

    let res = res.unwrap();
    assert!(res.contains_key("RES"));
    assert_eq!(
        res.get("RES").unwrap().0,
        Matrix::new(vec![vec![fr(1.0)], vec![fr(0.0)], vec![fr(0.0)], vec![fr(0.0)]])
    );
    assert_eq!(res.get("RES").unwrap().1, "00");
}

#[test]
fn quantum_assembler_executor_test_tensor_hadamar_and_apply() {
    let ast = parse(
        "
        INITIALIZE R 2
        U TENSOR G_H G_H
        APPLY U R
        MEASURE R RES
        "
        .to_string(),
    );
    assert!(ast.is_ok());

    let res = execute_script::<F>(ast.unwrap());

    assert!(res.is_ok());

    let res = res.unwrap();
    assert!(res.contains_key("RES"));
    assert!(res.get("RES").unwrap().0.near(&Matrix::new(vec![
        vec![fr(0.5)],
        vec![fr(0.5)],
        vec![fr(0.5)],
        vec![fr(0.5)]
    ])));
}

#[test]
fn quantum_assembler_executor_test_select() {
    let ast = parse(
        "
            INITIALIZE R 2
            U TENSOR G_H G_I_2
            APPLY U R
            SELECT S1 R 0 1
            MEASURE S1 RES1
            APPLY G_CNOT R
            MEASURE R RES2
        "
        .to_string(),
    );
    assert!(ast.is_ok());

    let res = execute_script::<F>(ast.unwrap());

    assert!(res.is_ok());

    let res = res.unwrap();
    assert!(res.contains_key("RES2"));
    let res2 = res.get("RES2").unwrap();
    assert!(res2.1 == "11" || res2.1 == "00");
}

#[test]
fn initial_state_with_exact_numbers() {
    let log = run_exact("INITIALIZE R 2\nMEASURE R RES", vec![]).unwrap();
    assert_eq!(log.len(), 1);
    let (state, bits) = log.get("RES").unwrap();
    assert_eq!(*state, exact_vector(vec![1, 0, 0, 0]));
    assert_eq!(bits, "00");
    assert!(!log.contains_key("R"));
}

#[test]
fn all_four_outcomes_are_drawn_after_two_hadamards() {
    let program = "INITIALIZE R 2\nU TENSOR G_H G_H\nAPPLY U R\nMEASURE R RES";
    let mut seen = std::collections::BTreeSet::new();
    for _ in 0..400 {
        let ast = parse(program.to_string()).unwrap();
        let log = execute_script::<F>(ast).unwrap();
        seen.insert(log.get("RES").unwrap().1.clone());
    }
    let all: Vec<String> = seen.into_iter().collect();
    assert_eq!(all, vec!["00", "01", "10", "11"]);
}

#[test]
fn the_draw_decides_the_outcome() {
    let program = "INITIALIZE R 2\nU TENSOR G_H G_H\nAPPLY U R\nMEASURE R RES";
    let quarter: u128 = F::weight(fr(0.5)) as u128;
    for (draw, bits) in [
        (0, "00"),
        (quarter - 1, "00"),
        (quarter, "01"),
        (2 * quarter, "10"),
        (3 * quarter, "11"),
        (4 * quarter - 1, "11"),
    ] {
        let log = run_rounded(program, vec![draw]).unwrap();
        assert_eq!(log.get("RES").unwrap().1, bits);
    }
}

#[test]
fn bell_pair_outcomes_agree() {
    let program = "INITIALIZE R 2
        U TENSOR G_H G_I_2
        APPLY U R
        APPLY G_CNOT R
        MEASURE R RES";
    let half: u128 = F::weight(fr(std::f64::consts::FRAC_1_SQRT_2)) as u128;
    let log = run_rounded(program, vec![0]).unwrap();
    assert_eq!(log.get("RES").unwrap().1, "00");
    let log = run_rounded(program, vec![half]).unwrap();
    assert_eq!(log.get("RES").unwrap().1, "11");
}

#[test]
fn measuring_a_selection_collapses_the_state_on_the_heap() {
    let program = "INITIALIZE R 2
        U TENSOR G_H G_I_2
        APPLY U R
        SELECT S R 0 1
        MEASURE S FIRST
        MEASURE R ALL";
    let s = std::f64::consts::FRAC_1_SQRT_2;
    let half: u128 = F::weight(fr(s)) as u128;
    // the first draw falls on the reading 1 of qubit 0
    let log = run_rounded(program, vec![half, 0]).unwrap();
    let (state, bits) = log.get("FIRST").unwrap();
    assert_eq!(bits, "1");
    assert!(state.near(&Matrix::new(vec![
        vec![fr(0.0)],
        vec![fr(0.0)],
        vec![fr(s)],
        vec![fr(0.0)]
    ])));
    let (state, bits) = log.get("ALL").unwrap();
    assert_eq!(bits, "10");
    assert!(state.near(&Matrix::new(vec![
        vec![fr(0.0)],
        vec![fr(0.0)],
        vec![fr(s)],
        vec![fr(0.0)]
    ])));
    // and on the reading 0
    let log = run_rounded(program, vec![0, 0]).unwrap();
    assert_eq!(log.get("FIRST").unwrap().1, "0");
    assert_eq!(log.get("ALL").unwrap().1, "00");
}

#[test]
fn when_the_draws_are_used_up_the_draw_is_zero() {
    let program = "INITIALIZE R 1\nAPPLY G_H R\nMEASURE R A\nMEASURE R B";
    let half: u128 = F::weight(fr(std::f64::consts::FRAC_1_SQRT_2)) as u128;
    let log = run_rounded(program, vec![half]).unwrap();
    assert_eq!(log.get("A").unwrap().1, "1");
    assert_eq!(log.get("B").unwrap().1, "0");
}

#[test]
fn inverse_of_a_hermitian_matrix_twice_gives_it_back() {
    let program = "A INVERSE G_CNOT\nB INVERSE A\nINITIALIZE R 2\nAPPLY B R\nMEASURE R RES";
    let log = run_exact(program, vec![]).unwrap();
    assert_eq!(log.get("RES").unwrap().1, "00");

    let mut memory = QuantumMemory::<C>::new(vec![]);
    let h = Matrix::new(vec![vec![c(2), ci(1, -3)], vec![ci(1, 3), c(-5)]]);
    memory.heap.insert("H".to_string(), LiteralValue::Matrix(h.copy()));
    for statement in parse("A INVERSE H\nB INVERSE A".to_string()).unwrap() {
        assert_eq!(execute_ast_node(&statement, &mut memory), Ok(None));
    }
    assert_eq!(memory.heap.get("B"), Some(&LiteralValue::Matrix(h.copy())));
    assert_eq!(memory.heap.get("A"), Some(&LiteralValue::Matrix(h)));
}

#[test]
fn inverse_of_another_matrix_is_an_error() {
    assert_eq!(
        run_exact("A INVERSE G_R_2", vec![]),
        Err(syntax_error(
            "Input invalid for INVERSE, should be a hermetian matrix"
        ))
    );
}

#[test]
fn concat_multiplies_square_matrices_of_one_size() {
    let program = "U CONCAT G_CNOT G_CNOT\nINITIALIZE R 2\nAPPLY G_CNOT R\nAPPLY U R\nMEASURE R RES";
    let log = run_exact(program, vec![]).unwrap();
    assert_eq!(log.get("RES").unwrap().1, "00");
    assert_eq!(
        run_exact("U CONCAT G_CNOT G_I_2", vec![]),
        Err(syntax_error("Matrix sizes should be equal to CONCAT"))
    );
    assert_eq!(
        run_exact("INITIALIZE R 1\nINITIALIZE S 1\nU CONCAT R S", vec![]),
        Err(syntax_error("Matrix sizes should be equal to CONCAT"))
    );
}

#[test]
fn apply_needs_a_square_matrix_and_a_fitting_state() {
    let message = "Input invalid for APPLY, first arg should be a square matrix & the second arg should be vector with equal columns";
    assert_eq!(
        run_exact("INITIALIZE R 1\nAPPLY G_CNOT R", vec![]),
        Err(syntax_error(message))
    );
    assert_eq!(
        run_exact("INITIALIZE R 1\nU TENSOR G_I_2 G_I_2\nAPPLY R U", vec![]),
        Err(syntax_error(message))
    );
    assert_eq!(
        run_exact("INITIALIZE R 1\nINITIALIZE S 0\nV TENSOR R S\nAPPLY R V", vec![]),
        Err(syntax_error(message))
    );
}

#[test]
fn apply_with_the_phase_shift_and_the_controlled_not() {
    let program = "INITIALIZE R 2
        X TENSOR G_I_2 G_R_1
        APPLY X R
        APPLY G_CNOT R
        MEASURE R RES";
    let log = run_exact(program, vec![]).unwrap();
    assert_eq!(log.get("RES").unwrap().0, exact_vector(vec![1, 0, 0, 0]));
}

#[test]
fn select_checks_its_range() {
    assert_eq!(
        run_exact("INITIALIZE R 2\nSELECT S R 1 3", vec![]),
        Err(syntax_error("Invalid range for SELECT"))
    );
    assert_eq!(
        run_exact("INITIALIZE R 2\nSELECT S R 2 1", vec![]),
        Err(syntax_error("Invalid range for SELECT"))
    );
    assert_eq!(
        run_exact("U TENSOR G_I_2 G_I_2\nSELECT S U 0 1", vec![]),
        Err(syntax_error("Invalid range for SELECT"))
    );
    assert!(run_exact("INITIALIZE R 2\nSELECT S R 0 2\nSELECT T R 2 2", vec![]).is_ok());
}

#[test]
fn measure_checks_its_operand() {
    assert_eq!(
        run_exact("MEASURE G_CNOT RES", vec![]),
        Err(syntax_error(
            "Invalid input for MEASURE, should be a vector of size power of two"
        ))
    );
    assert_eq!(
        run_exact("MEASURE 5 RES", vec![]),
        Err(syntax_error("Invalid matrix"))
    );
    assert_eq!(
        run_exact("MEASURE R RES", vec![]),
        Err(syntax_error("Variable not found"))
    );
    assert_eq!(
        run_exact(
            "INITIALIZE R 1\nSELECT S R 0 1\nR TENSOR G_I_2 G_I_2\nMEASURE S RES",
            vec![]
        ),
        Err(syntax_error(
            "Invalid input for MEASURE, should be a vector of size power of two"
        ))
    );
    assert_eq!(
        run_exact(
            "INITIALIZE R 2\nSELECT S R 1 2\nINITIALIZE R 1\nMEASURE S RES",
            vec![]
        ),
        Err(syntax_error("Invalid range for MEASURE"))
    );
}

#[test]
fn initialize_checks_its_size() {
    assert_eq!(
        run_exact("INITIALIZE R 200", vec![]),
        Err(syntax_error("Invalid size for INITIALIZE"))
    );
    let log = run_exact("INITIALIZE R 0\nMEASURE R RES", vec![]).unwrap();
    assert_eq!(log.get("RES").unwrap().1, "");
    assert_eq!(log.get("RES").unwrap().0, exact_vector(vec![1]));
}

#[test]
fn gate_names_resolve_to_gates() {
    assert_eq!(
        parse_literal::<C>(&"G_I_3".to_string()),
        Ok(LiteralValue::Matrix(Matrix::identity(3)))
    );
    assert_eq!(
        parse_literal::<C>(&"G_I_16".to_string()),
        Ok(LiteralValue::Matrix(Matrix::identity(16)))
    );
    assert_eq!(
        parse_literal::<C>(&"G_CNOT".to_string()),
        Ok(LiteralValue::Matrix(qsim::gates::cnot()))
    );
    assert_eq!(
        parse_literal::<C>(&"G_R_2".to_string()),
        Ok(LiteralValue::Matrix(qsim::gates::phase_shift(2).unwrap()))
    );
    assert_eq!(
        parse_literal::<C>(&"G_Uf_2_3".to_string()),
        Ok(LiteralValue::Matrix(qsim::gates::unitary_modular(2, 3)))
    );
    assert_eq!(
        parse_literal::<F>(&"G_H".to_string()),
        Ok(LiteralValue::Matrix(qsim::gates::hadamard().unwrap()))
    );
    assert_eq!(
        parse_literal::<F>(&"G_R_4".to_string()),
        Ok(LiteralValue::Matrix(qsim::gates::phase_shift(4).unwrap()))
    );
    assert_eq!(
        parse_literal::<F>(&"G_QFTI_2".to_string()),
        Ok(LiteralValue::Matrix(
            qsim::gates::quantum_fourier::<F>(2).unwrap().adjoint()
        ))
    );
    assert_eq!(
        parse_literal::<C>(&"G_QFTI_0".to_string()),
        Ok(LiteralValue::Matrix(Matrix::identity(1)))
    );
}

#[test]
fn numbers_resolve_to_numbers() {
    assert_eq!(parse_literal::<C>(&"0".to_string()), Ok(LiteralValue::Int(0)));
    assert_eq!(parse_literal::<C>(&"007".to_string()), Ok(LiteralValue::Int(7)));
    assert_eq!(
        parse_literal::<C>(&"2147483647".to_string()),
        Ok(LiteralValue::Int(i32::MAX))
    );
    assert_eq!(
        parse_literal::<C>(&"2147483648".to_string()),
        Err(syntax_error("Invalid literal"))
    );
    assert_eq!(
        parse_literal::<C>(&"-1".to_string()),
        Err(syntax_error("Invalid literal"))
    );
    assert_eq!(
        parse_literal::<C>(&"abc".to_string()),
        Err(syntax_error("Invalid literal"))
    );
    assert_eq!(
        parse_literal::<C>(&"".to_string()),
        Err(syntax_error("Invalid literal"))
    );
}

#[test]
fn gates_that_are_not_known_or_not_held_are_not_implemented() {
    for name in ["G_X", "G_", "G_I_", "G_I_x4", "G_I_4x", "G_I_4_5", "G_Uf_2", "G_Uf_2_", "G_R_2_3"] {
        assert_eq!(
            parse_literal::<C>(&name.to_string()),
            Err(RunTimeError::NotImplemented)
        );
    }
    assert_eq!(
        parse_literal::<C>(&"G_H".to_string()),
        Err(RunTimeError::NotImplemented)
    );
    assert_eq!(
        parse_literal::<C>(&"G_R_3".to_string()),
        Err(RunTimeError::NotImplemented)
    );
    assert_eq!(
        parse_literal::<C>(&"G_QFTI_1".to_string()),
        Err(RunTimeError::NotImplemented)
    );
}

#[test]
fn gates_with_numbers_out_of_range_are_invalid() {
    for name in [
        "G_I_0",
        "G_R_0",
        "G_Uf_2_0",
        "G_Uf_4294967296_3",
        "G_Uf_2_4294967296",
        "G_Uf_2_4294967295",
        "G_QFTI_64",
        "G_I_99999999999999999999999",
    ] {
        assert_eq!(
            parse_literal::<C>(&name.to_string()),
            Err(syntax_error("Invalid literal"))
        );
    }
}

#[test]
fn unknown_operations_are_not_implemented() {
    let mut memory = QuantumMemory::<C>::new(vec![]);
    assert_eq!(
        parse_func_application(&"VECTOR".to_string(), &vec![], &mut memory),
        Err(RunTimeError::NotImplemented)
    );
    assert_eq!(
        run_exact("INITIALIZE R [1 0]", vec![]),
        Err(RunTimeError::NotImplemented)
    );
}

#[test]
fn operand_counts_are_checked() {
    let mut memory = QuantumMemory::<C>::new(vec![]);
    for op in ["INITIALIZE", "INVERSE", "TENSOR", "CONCAT", "APPLY", "SELECT", "MEASURE"] {
        assert_eq!(
            parse_func_application(&op.to_string(), &vec![], &mut memory),
            Err(syntax_error("Invalid number of parameters"))
        );
    }
}

#[test]
fn operand_kinds_are_checked() {
    assert_eq!(
        run_exact("U TENSOR 1 G_CNOT", vec![]),
        Err(syntax_error("Invalid matrix"))
    );
    assert_eq!(
        run_exact("U INVERSE 1", vec![]),
        Err(syntax_error("Invalid matrix"))
    );
    let mut memory = QuantumMemory::<C>::new(vec![]);
    let number = ASTNode::Literal("1".to_string());
    let gate = ASTNode::Literal("G_CNOT".to_string());
    assert_eq!(
        parse_func_application(&"INITIALIZE".to_string(), &vec![gate], &mut memory),
        Err(syntax_error("Invalid matrix"))
    );
    let state = ASTNode::FunctionApplication("INITIALIZE".to_string(), vec![number]);
    assert_eq!(
        parse_func_application(
            &"SELECT".to_string(),
            &vec![
                state,
                ASTNode::Literal("G_CNOT".to_string()),
                ASTNode::Literal("1".to_string())
            ],
            &mut memory
        ),
        Err(syntax_error("Invalid matrix"))
    );
}

#[test]
fn assignments_go_to_their_region() {
    let mut memory = QuantumMemory::<C>::new(vec![]);
    let body = ASTNode::FunctionApplication(
        "INITIALIZE".to_string(),
        vec![ASTNode::Literal("1".to_string())],
    );
    assert_eq!(
        parse_var_assignment(&"R".to_string(), &body, &MemoryLocation::Measurement, &mut memory),
        Err(syntax_error("Invalid assignment"))
    );
    assert_eq!(
        parse_var_assignment(&"R".to_string(), &body, &MemoryLocation::Heap, &mut memory),
        Ok(None)
    );
    assert_eq!(
        parse_identifier(&"R".to_string(), &memory),
        Ok(LiteralValue::Matrix(exact_vector(vec![1, 0])))
    );
    let measure = ASTNode::FunctionApplication(
        "MEASURE".to_string(),
        vec![ASTNode::Identifier("R".to_string())],
    );
    assert_eq!(
        parse_var_assignment(&"M".to_string(), &measure, &MemoryLocation::Heap, &mut memory),
        Err(syntax_error("Invalid assignment"))
    );
    assert_eq!(
        parse_var_assignment(&"M".to_string(), &measure, &MemoryLocation::Measurement, &mut memory),
        Ok(None)
    );
    assert_eq!(
        memory.measurements.get("M"),
        Some(&(exact_vector(vec![1, 0]), "0".to_string()))
    );
    let nested = ASTNode::VariableAssignment(
        "X".to_string(),
        MemoryLocation::Heap,
        Rc::new(ASTNode::Literal("4".to_string())),
    );
    assert_eq!(
        parse_var_assignment(&"Y".to_string(), &nested, &MemoryLocation::Heap, &mut memory),
        Err(syntax_error("Variable not found"))
    );
    assert_eq!(
        parse_identifier(&"X".to_string(), &memory),
        Ok(LiteralValue::Int(4))
    );
}

#[test]
fn nodes_give_named_values() {
    let mut memory = QuantumMemory::<C>::new(vec![]);
    assert_eq!(
        execute_ast_node(&ASTNode::Literal("12".to_string()), &mut memory),
        Ok(Some(("_".to_string(), LiteralValue::Int(12))))
    );
    assert_eq!(
        execute_ast_node(&ASTNode::Identifier("R".to_string()), &mut memory),
        Err(syntax_error("Variable not found"))
    );
    memory.heap.insert("R".to_string(), LiteralValue::Int(3));
    assert_eq!(
        execute_ast_node(&ASTNode::Identifier("R".to_string()), &mut memory),
        Ok(Some(("R".to_string(), LiteralValue::Int(3))))
    );
    assert_eq!(
        execute_ast_node(
            &ASTNode::FunctionApplication(
                "INITIALIZE".to_string(),
                vec![ASTNode::Identifier("R".to_string())]
            ),
            &mut memory
        ),
        Ok(Some((
            "INITIALIZE".to_string(),
            LiteralValue::Matrix(exact_vector(vec![1, 0, 0, 0, 0, 0, 0, 0]))
        )))
    );
}

#[test]
fn select_names_the_source_of_its_state() {
    let program = "INITIALIZE R 2\nSELECT S R 0 1";
    let mut memory = QuantumMemory::<C>::new(vec![]);
    for statement in parse(program.to_string()).unwrap() {
        assert_eq!(execute_ast_node(&statement, &mut memory), Ok(None));
    }
    assert_eq!(
        memory.heap.get("S"),
        Some(&LiteralValue::Selection(
            "R".to_string(),
            MemoryLocation::Heap,
            0,
            1
        ))
    );
}

#[test]
fn the_parts_of_values() {
    let m = LiteralValue::Matrix(exact_vector(vec![1, 0]));
    let n = LiteralValue::<C>::Int(7);
    let s = LiteralValue::<C>::Selection("R".to_string(), MemoryLocation::Heap, 1, 2);
    assert_eq!(unwrap_matrix(&m), Ok(&exact_vector(vec![1, 0])));
    assert_eq!(unwrap_matrix(&n), Err(syntax_error("Invalid matrix")));
    assert_eq!(unwrap_int(&n), Ok(&7));
    assert_eq!(unwrap_int(&s), Err(syntax_error("Invalid matrix")));
    assert_eq!(
        unwrap_selection(&s),
        Ok((&"R".to_string(), &MemoryLocation::Heap, &1, &2))
    );
    assert_eq!(unwrap_selection(&m), Err(syntax_error("Invalid matrix")));
    let params = vec![("_".to_string(), n)];
    assert_eq!(validate_param_len(&params, 1), Ok(()));
    assert_eq!(
        validate_param_len(&params, 2),
        Err(syntax_error("Invalid number of parameters"))
    );
}

#[test]
fn tensor_of_states() {
    let program = "INITIALIZE A 1\nINITIALIZE B 1\nX TENSOR G_R_1 G_I_2\nR TENSOR A B\nAPPLY X R\nMEASURE R RES";
    let log = run_exact(program, vec![]).unwrap();
    assert_eq!(log.get("RES").unwrap().0, exact_vector(vec![1, 0, 0, 0]));
}

#[test]
fn runtime_errors_as_text() {
    assert_eq!(
        syntax_error("Invalid matrix").to_string(),
        "Syntax error: Invalid matrix"
    );
    assert_eq!(RunTimeError::NotImplemented.to_string(), "Not implemented");
}

#[test]
fn measuring_qubits_whose_amplitudes_cancel_gives_the_first_reading() {
    // the state (|00> - |01>) / sqrt 2: the sums for both readings of the
    // first qubit are zero
    let program = "INITIALIZE R 2
        U TENSOR G_I_2 G_H
        APPLY U R
        V TENSOR G_I_2 G_R_1
        APPLY V R
        SELECT S R 0 1
        MEASURE S RES
        MEASURE R ALL";
    let s = std::f64::consts::FRAC_1_SQRT_2;
    let log = run_rounded(program, vec![3, 0]).unwrap();
    let (state, bits) = log.get("RES").unwrap();
    assert_eq!(bits, "0");
    assert!(state.near(&Matrix::new(vec![
        vec![fr(s)],
        vec![fr(-s)],
        vec![fr(0.0)],
        vec![fr(0.0)]
    ])));
    assert_eq!(log.get("ALL").unwrap().1, "00");
}

fn memory_with_a_register() -> QuantumMemory<C> {
    let mut memory = QuantumMemory::<C>::new(vec![7, 8]);
    let body = ASTNode::FunctionApplication(
        "INITIALIZE".to_string(),
        vec![ASTNode::Literal("2".to_string())],
    );
    assert_eq!(
        parse_var_assignment(&"R".to_string(), &body, &MemoryLocation::Heap, &mut memory),
        Ok(None)
    );
    let measure = ASTNode::FunctionApplication(
        "MEASURE".to_string(),
        vec![ASTNode::Identifier("R".to_string())],
    );
    assert_eq!(
        parse_var_assignment(&"M".to_string(), &measure, &MemoryLocation::Measurement, &mut memory),
        Ok(None)
    );
    memory
}

fn assert_unchanged(memory: &QuantumMemory<C>) {
    let before = memory_with_a_register();
    assert_eq!(memory.heap, before.heap);
    assert_eq!(memory.measurements, before.measurements);
    assert_eq!(memory.draws, before.draws);
    assert_eq!(memory.used, before.used);
}

#[test]
fn an_error_leaves_the_memory_as_it_was() {
    let mut memory = memory_with_a_register();
    assert_eq!(memory.used, 1);

    // a name that is no operation
    assert_eq!(
        parse_func_application(&"FOO".to_string(), &vec![], &mut memory),
        Err(RunTimeError::NotImplemented)
    );
    assert_unchanged(&memory);

    // a matrix that is unitary and not Hermitian
    assert_eq!(
        parse_func_application(
            &"INVERSE".to_string(),
            &vec![ASTNode::Literal("G_R_2".to_string())],
            &mut memory
        ),
        Err(syntax_error(
            "Input invalid for INVERSE, should be a hermetian matrix"
        ))
    );
    assert_unchanged(&memory);

    // a range that does not lie within the register
    for (from, to) in [("1", "3"), ("2", "1")] {
        assert_eq!(
            parse_func_application(
                &"SELECT".to_string(),
                &vec![
                    ASTNode::Identifier("R".to_string()),
                    ASTNode::Literal(from.to_string()),
                    ASTNode::Literal(to.to_string()),
                ],
                &mut memory
            ),
            Err(syntax_error("Invalid range for SELECT"))
        );
        assert_unchanged(&memory);
    }

    // a measurement that fails takes no draw
    assert_eq!(
        parse_func_application(
            &"MEASURE".to_string(),
            &vec![ASTNode::Literal("G_CNOT".to_string())],
            &mut memory
        ),
        Err(syntax_error(
            "Invalid input for MEASURE, should be a vector of size power of two"
        ))
    );
    assert_unchanged(&memory);

    // an assignment that fails binds nothing
    assert_eq!(
        execute_ast_node(
            &ASTNode::VariableAssignment(
                "R".to_string(),
                MemoryLocation::Heap,
                Rc::new(ASTNode::Identifier("NONE".to_string())),
            ),
            &mut memory
        ),
        Err(syntax_error("Variable not found"))
    );
    assert_unchanged(&memory);
}

#[test]
fn an_error_in_a_later_operand_keeps_what_earlier_operands_did() {
    let mut memory = memory_with_a_register();
    let select = ASTNode::VariableAssignment(
        "S".to_string(),
        MemoryLocation::Heap,
        Rc::new(ASTNode::Literal("3".to_string())),
    );
    assert_eq!(
        parse_func_application(
            &"TENSOR".to_string(),
            &vec![select, ASTNode::Identifier("NONE".to_string())],
            &mut memory
        ),
        Err(syntax_error("Variable not found"))
    );
    assert_eq!(
        parse_identifier(&"S".to_string(), &memory),
        Ok(LiteralValue::Int(3))
    );
}
