//! The executor: runs the statements of a program over a memory of two
//! regions, the heap and the measurement log.
//!
//! A measurement takes its draw from a list that the memory holds: the
//! first measurement takes the first draw, and so on; when the list is used
//! up, the draw is zero. With the list given, a run is a function of the
//! program.
//!
//! The evaluation of a node that fails leaves a memory too: what the
//! operands before the failure did stays done, and the operation that
//! failed changed nothing. A measurement that fails takes no draw.

use crate::complex::Scalar;
use crate::gates::{
    spec_cnot, spec_hadamard, spec_phase_shift, spec_quantum_fourier, spec_unitary_modular,
};
use crate::lexer::has_prefix;
use crate::matrix::{
    cols, is_rect, rows, spec_adjoint, spec_identity, spec_is_hermitian, spec_multiply,
    spec_tensor, spec_unit_column, Matrix,
};
use crate::outcomes::{
    apply_gives, args_give, builtin_gives, collapsed_step, concat_gives, execute_gives,
    fourier_gives, identity_gives, initialize_gives, inverse_gives, is_assigned, is_log_of,
    is_pure_step, is_with_operand, is_with_statement, literal_gives, measure_gives, measured_step,
    node_gives, oracle_gives, phase_gives, statements_give, tensor_gives, value_gives,
};
use crate::parser::{ASTNode, AstView, MemoryLocation};
use crate::prefabs::{has_shape, spec_parse_decimal, spec_prefab_numbers};
use crate::quantum_sim::{spec_measure, spec_measure_partial, spec_qbit_length, MeasureError};
use crate::table::Table;
use vstd::arithmetic::power2::pow2;
use vstd::prelude::*;

verus! {

/// Why a program cannot be run.
#[derive(Debug, PartialEq)]
pub enum RunTimeError {
    SyntaxError(String),
    NotImplemented,
}

/// What a run-time error says.
pub enum ErrorView {
    SyntaxError(Seq<char>),
    NotImplemented,
}

impl View for RunTimeError {
    type V = ErrorView;

    open spec fn view(&self) -> ErrorView {
        match self {
            RunTimeError::SyntaxError(reason) => ErrorView::SyntaxError(reason@),
            RunTimeError::NotImplemented => ErrorView::NotImplemented,
        }
    }
}

impl RunTimeError {
    /// The error as a line of text.
    pub fn to_string(&self) -> (s: String)
        ensures
            s@ == match self@ {
                ErrorView::SyntaxError(reason) => "Syntax error: "@ + reason,
                ErrorView::NotImplemented => "Not implemented"@,
            },
    {
        match self {
            RunTimeError::SyntaxError(reason) => {
                let mut s = String::from_str("Syntax error: ");
                s.append(reason.as_str());
                s
            },
            RunTimeError::NotImplemented => String::from_str("Not implemented"),
        }
    }
}

/// A value of the language.
#[derive(Debug, PartialEq)]
pub enum LiteralValue<T> {
    /// A matrix; a state is a matrix of one column.
    Matrix(Matrix<T>),
    /// A whole number.
    Int(i32),
    /// The qubits `from..to` of the state bound to a name in a region.
    Selection(String, MemoryLocation, i32, i32),
    /// A state after a measurement and the outcome in binary digits.
    Measurement(Matrix<T>, String),
}

/// What a value says.
pub enum ValueView<T> {
    Matrix(Seq<Seq<T>>),
    Int(i32),
    Selection(Seq<char>, MemoryLocation, i32, i32),
    Measurement(Seq<Seq<T>>, Seq<char>),
}

impl<T> View for LiteralValue<T> {
    type V = ValueView<T>;

    open spec fn view(&self) -> ValueView<T> {
        match self {
            LiteralValue::Matrix(m) => ValueView::Matrix(m@),
            LiteralValue::Int(n) => ValueView::Int(*n),
            LiteralValue::Selection(name, region, from, to) => ValueView::Selection(
                name@,
                *region,
                *from,
                *to,
            ),
            LiteralValue::Measurement(m, bits) => ValueView::Measurement(m@, bits@),
        }
    }
}

/// The matrices of a value are well formed.
pub open spec fn value_ok<T>(v: ValueView<T>) -> bool {
    match v {
        ValueView::Matrix(m) => is_rect(m),
        ValueView::Measurement(m, bits) => is_rect(m),
        _ => true,
    }
}

/// The memory of a run.
#[derive(Debug)]
pub struct QuantumMemory<T> {
    /// The heap: names bound to matrices, numbers and selections.
    pub heap: Table<LiteralValue<T>>,
    /// The measurement log: names bound to a collapsed state and an outcome.
    pub measurements: Table<(Matrix<T>, String)>,
    /// The draws for the measurements, in the order of the measurements.
    pub draws: Vec<u128>,
    /// The number of draws that were taken.
    pub used: usize,
}

/// What a memory holds.
pub struct MemoryView<T> {
    pub heap: Map<Seq<char>, ValueView<T>>,
    pub measurements: Map<Seq<char>, (Seq<Seq<T>>, Seq<char>)>,
    pub draws: Seq<u128>,
    pub used: nat,
}

/// What a measurement log holds.
pub open spec fn log_view<T>(log: Map<Seq<char>, (Matrix<T>, String)>) -> Map<
    Seq<char>,
    (Seq<Seq<T>>, Seq<char>),
> {
    log.map_values(|e: (Matrix<T>, String)| (e.0@, e.1@))
}

/// What a heap holds.
pub open spec fn heap_view<T>(heap: Map<Seq<char>, LiteralValue<T>>) -> Map<
    Seq<char>,
    ValueView<T>,
> {
    heap.map_values(|v: LiteralValue<T>| v@)
}

impl<T> View for QuantumMemory<T> {
    type V = MemoryView<T>;

    open spec fn view(&self) -> MemoryView<T> {
        MemoryView {
            heap: heap_view(self.heap@),
            measurements: log_view(self.measurements@),
            draws: self.draws@,
            used: self.used as nat,
        }
    }
}

impl<T> QuantumMemory<T> {
    /// No name is bound twice in a region, and all matrices are well formed.
    pub open spec fn wf(&self) -> bool {
        &&& self.heap.wf()
        &&& self.measurements.wf()
        &&& forall|name: Seq<char>| #[trigger]
            self.heap@.contains_key(name) ==> value_ok(self.heap@[name]@)
        &&& forall|name: Seq<char>| #[trigger]
            self.measurements@.contains_key(name) ==> is_rect(self.measurements@[name].0@)
    }

    /// The empty memory with the given draws.
    pub fn new(draws: Vec<u128>) -> (memory: QuantumMemory<T>)
        ensures
            memory.wf(),
            memory@ == initial_memory::<T>(draws@),
    {
        let memory = QuantumMemory { heap: Table::new(), measurements: Table::new(), draws, used: 0 };
        assert(memory@.heap =~= Map::<Seq<char>, ValueView<T>>::empty());
        assert(memory@.measurements =~= Map::<Seq<char>, (Seq<Seq<T>>, Seq<char>)>::empty());
        memory
    }
}

/// The empty memory with the given draws.
pub open spec fn initial_memory<T>(draws: Seq<u128>) -> MemoryView<T> {
    MemoryView { heap: Map::empty(), measurements: Map::empty(), draws, used: 0 }
}

/// The draw that the next measurement takes.
pub open spec fn next_draw<T>(memory: MemoryView<T>) -> nat {
    if memory.used < memory.draws.len() {
        memory.draws[memory.used as int] as nat
    } else {
        0
    }
}

/// A name and a value: what the evaluation of an operand gives.
pub type Named<T> = (Seq<char>, ValueView<T>);

/// What the evaluation of a node gives: the memory after it, and a named
/// value unless the node was a statement.
pub struct Step<T> {
    pub memory: MemoryView<T>,
    pub value: Option<Named<T>>,
}

/// Why the evaluation of a node failed, and the memory that it left.
pub struct Failure<T> {
    pub memory: MemoryView<T>,
    pub error: ErrorView,
}

/// The failure with the given error that leaves the given memory.
pub open spec fn failed<T>(memory: MemoryView<T>, error: ErrorView) -> Failure<T> {
    Failure { memory, error }
}

/// The error for a misuse, with its reason.
pub open spec fn syntax(reason: Seq<char>) -> ErrorView {
    ErrorView::SyntaxError(reason)
}

/// The error for a literal that is no value.
pub open spec fn invalid_literal() -> ErrorView {
    syntax("Invalid literal"@)
}

/// The matrix of a gate, or the error that the scalar type does not hold it.
pub open spec fn gate_or_missing<T>(gate: Option<Seq<Seq<T>>>) -> Result<ValueView<T>, ErrorView> {
    match gate {
        Some(m) => Ok(ValueView::Matrix(m)),
        None => Err(ErrorView::NotImplemented),
    }
}

/// The phase shift `G_R_k` for the numbers found in its name.
pub open spec fn spec_phase_literal<T: Scalar>(numbers: Option<Seq<nat>>) -> Result<
    ValueView<T>,
    ErrorView,
> {
    match numbers {
        Some(ns) => if ns.len() != 1 || ns[0] == 0 || ns[0] > u64::MAX / 2 {
            Err(invalid_literal())
        } else {
            gate_or_missing(spec_phase_shift::<T>(ns[0] as u64))
        },
        None => Err(invalid_literal()),
    }
}

/// The identity `G_I_d` for the numbers found in its name.
pub open spec fn spec_identity_literal<T: Scalar>(numbers: Option<Seq<nat>>) -> Result<
    ValueView<T>,
    ErrorView,
> {
    match numbers {
        Some(ns) => if ns.len() != 1 || ns[0] == 0 {
            Err(invalid_literal())
        } else {
            Ok(ValueView::Matrix(spec_identity::<T>(ns[0])))
        },
        None => Err(invalid_literal()),
    }
}

/// The modular exponentiation `G_Uf_a_n` for the numbers found in its name.
pub open spec fn spec_oracle_literal<T: Scalar>(numbers: Option<Seq<nat>>) -> Result<
    ValueView<T>,
    ErrorView,
> {
    match numbers {
        Some(ns) => if ns.len() != 2 || ns[0] > u32::MAX || ns[1] == 0 || ns[1] > u32::MAX || pow2(
            crate::gates::oracle_qubits(ns[1]),
        ) > usize::MAX {
            Err(invalid_literal())
        } else {
            Ok(ValueView::Matrix(spec_unitary_modular::<T>(ns[0], ns[1])))
        },
        None => Err(invalid_literal()),
    }
}

/// The inverse Fourier transform `G_QFTI_k` for the numbers found in its name.
pub open spec fn spec_fourier_literal<T: Scalar>(numbers: Option<Seq<nat>>) -> Result<
    ValueView<T>,
    ErrorView,
> {
    match numbers {
        Some(ns) => if ns.len() != 1 || pow2(ns[0]) > usize::MAX {
            Err(invalid_literal())
        } else {
            match spec_quantum_fourier::<T>(ns[0]) {
                Some(m) => Ok(ValueView::Matrix(spec_adjoint(m))),
                None => Err(ErrorView::NotImplemented),
            }
        },
        None => Err(invalid_literal()),
    }
}

/// The value of a literal: a gate for a gate name, a number for a number.
/// A name that begins with `G_` and is no gate name is not implemented.
pub open spec fn spec_literal<T: Scalar>(v: Seq<char>) -> Result<ValueView<T>, ErrorView> {
    if v == "G_H"@ {
        gate_or_missing(spec_hadamard::<T>())
    } else if v == "G_CNOT"@ {
        Ok(ValueView::Matrix(spec_cnot::<T>()))
    } else if has_shape(v, "G_R_"@, 1) {
        spec_phase_literal(spec_prefab_numbers(v, 1))
    } else if has_shape(v, "G_I_"@, 1) {
        spec_identity_literal(spec_prefab_numbers(v, 1))
    } else if has_shape(v, "G_Uf_"@, 2) {
        spec_oracle_literal(spec_prefab_numbers(v, 2))
    } else if has_shape(v, "G_QFTI_"@, 1) {
        spec_fourier_literal(spec_prefab_numbers(v, 1))
    } else if has_prefix(v, "G_"@) {
        Err(ErrorView::NotImplemented)
    } else {
        match spec_parse_decimal(v, i32::MAX as nat) {
            Some(n) => Ok(ValueView::Int(n as i32)),
            None => Err(invalid_literal()),
        }
    }
}

/// `INITIALIZE n`: the state of `n` qubits that are all zero.
pub open spec fn spec_initialize<T: Scalar>(params: Seq<Named<T>>) -> Result<
    ValueView<T>,
    ErrorView,
> {
    if params.len() != 1 {
        Err(syntax("Invalid number of parameters"@))
    } else {
        match params[0].1 {
            ValueView::Int(n) => if n < 0 || pow2(n as nat) > usize::MAX {
                Err(syntax("Invalid size for INITIALIZE"@))
            } else {
                Ok(ValueView::Matrix(spec_unit_column::<T>(pow2(n as nat))))
            },
            _ => Err(syntax("Invalid matrix"@)),
        }
    }
}

/// `INVERSE m`: the adjoint of a Hermitian matrix.
pub open spec fn spec_inverse<T: Scalar>(params: Seq<Named<T>>) -> Result<ValueView<T>, ErrorView> {
    if params.len() != 1 {
        Err(syntax("Invalid number of parameters"@))
    } else {
        match params[0].1 {
            ValueView::Matrix(m) => if !spec_is_hermitian(m) {
                Err(syntax("Input invalid for INVERSE, should be a hermetian matrix"@))
            } else {
                Ok(ValueView::Matrix(spec_adjoint(m)))
            },
            _ => Err(syntax("Invalid matrix"@)),
        }
    }
}

/// The two matrices of an operation on two matrices.
pub open spec fn two_matrices<T>(params: Seq<Named<T>>) -> Result<
    (Seq<Seq<T>>, Seq<Seq<T>>),
    ErrorView,
> {
    if params.len() != 2 {
        Err(syntax("Invalid number of parameters"@))
    } else {
        match (params[0].1, params[1].1) {
            (ValueView::Matrix(a), ValueView::Matrix(b)) => Ok((a, b)),
            _ => Err(syntax("Invalid matrix"@)),
        }
    }
}

/// `TENSOR a b`: the Kronecker product.
pub open spec fn spec_tensor_op<T: Scalar>(params: Seq<Named<T>>) -> Result<
    ValueView<T>,
    ErrorView,
> {
    match two_matrices(params) {
        Err(e) => Err(e),
        Ok((a, b)) => if rows(a) * rows(b) > usize::MAX || cols(a) * cols(b) > usize::MAX {
            Err(syntax("Matrix too large for TENSOR"@))
        } else {
            Ok(ValueView::Matrix(spec_tensor(a, b)))
        },
    }
}

/// `CONCAT a b`: the product of two square matrices of one size.
pub open spec fn spec_concat<T: Scalar>(params: Seq<Named<T>>) -> Result<ValueView<T>, ErrorView> {
    match two_matrices(params) {
        Err(e) => Err(e),
        Ok((a, b)) => if rows(a) != rows(b) || cols(a) != cols(b) || cols(a) != rows(b) {
            Err(syntax("Matrix sizes should be equal to CONCAT"@))
        } else {
            Ok(ValueView::Matrix(spec_multiply(a, b)))
        },
    }
}

/// `APPLY u v`: the product of a square matrix and a state that fits it.
pub open spec fn spec_apply<T: Scalar>(params: Seq<Named<T>>) -> Result<ValueView<T>, ErrorView> {
    match two_matrices(params) {
        Err(e) => Err(e),
        Ok((u, v)) => if cols(v) != 1 || rows(v) != cols(u) || rows(u) != cols(u) {
            Err(
                syntax(
                    "Input invalid for APPLY, first arg should be a square matrix & the second arg should be vector with equal columns"@,
                ),
            )
        } else {
            Ok(ValueView::Matrix(spec_multiply(u, v)))
        },
    }
}

/// `SELECT v from to`: the qubits `from..to` of the state that the first
/// operand names.
pub open spec fn spec_select<T: Scalar>(params: Seq<Named<T>>) -> Result<ValueView<T>, ErrorView> {
    if params.len() != 3 {
        Err(syntax("Invalid number of parameters"@))
    } else {
        match (params[0].1, params[1].1, params[2].1) {
            (ValueView::Matrix(m), ValueView::Int(from), ValueView::Int(to)) => match spec_qbit_length(
                m,
            ) {
                Some(q) => if from < 0 || from > to || to > q {
                    Err(syntax("Invalid range for SELECT"@))
                } else {
                    Ok(ValueView::Selection(params[0].0, MemoryLocation::Heap, from, to))
                },
                None => Err(syntax("Invalid range for SELECT"@)),
            },
            _ => Err(syntax("Invalid matrix"@)),
        }
    }
}

/// The error for a state that cannot be measured.
pub open spec fn measure_error(e: MeasureError) -> ErrorView {
    match e {
        MeasureError::NotAQubitVector => syntax(
            "Invalid input for MEASURE, should be a vector of size power of two"@,
        ),
        MeasureError::InvalidRange => syntax("Invalid range for MEASURE"@),
    }
}

/// The memory after a measurement took its draw.
pub open spec fn after_draw<T>(memory: MemoryView<T>) -> MemoryView<T> {
    if memory.used < memory.draws.len() {
        MemoryView { used: memory.used + 1, ..memory }
    } else {
        memory
    }
}

/// `MEASURE s`: measures a state, or the selected qubits of the state that
/// a selection names. For a selection the state on the heap is replaced by
/// the collapsed state.
pub open spec fn spec_measure_op<T: Scalar>(
    func: Seq<char>,
    params: Seq<Named<T>>,
    memory: MemoryView<T>,
) -> Result<Step<T>, Failure<T>> {
    if params.len() != 1 {
        Err(failed(memory, syntax("Invalid number of parameters"@)))
    } else {
        match params[0].1 {
            ValueView::Matrix(m) => measured_step(
                func,
                m,
                memory,
                spec_measure(m, next_draw(memory)),
            ),
            ValueView::Selection(key, region, from, to) => if !memory.heap.contains_key(key) {
                Err(failed(memory, syntax("Variable not found"@)))
            } else {
                match memory.heap[key] {
                    ValueView::Matrix(m) => collapsed_step(
                        func,
                        key,
                        memory,
                        spec_measure_partial(m, from as int, to as int, next_draw(memory)),
                    ),
                    _ => Err(failed(memory, syntax("Invalid matrix"@))),
                }
            },
            _ => Err(failed(memory, syntax("Invalid matrix"@))),
        }
    }
}

/// The step of an operation that leaves the memory as it is.
pub open spec fn pure_step<T>(
    func: Seq<char>,
    value: Result<ValueView<T>, ErrorView>,
    memory: MemoryView<T>,
) -> Result<Step<T>, Failure<T>> {
    match value {
        Ok(v) => Ok(Step { memory, value: Some((func, v)) }),
        Err(e) => Err(failed(memory, e)),
    }
}

/// The built-in operation `func` on evaluated operands. A name that is no
/// operation is not implemented.
pub open spec fn spec_builtin<T: Scalar>(
    func: Seq<char>,
    params: Seq<Named<T>>,
    memory: MemoryView<T>,
) -> Result<Step<T>, Failure<T>> {
    if func == "INITIALIZE"@ {
        pure_step(func, spec_initialize(params), memory)
    } else if func == "INVERSE"@ {
        pure_step(func, spec_inverse(params), memory)
    } else if func == "TENSOR"@ {
        pure_step(func, spec_tensor_op(params), memory)
    } else if func == "CONCAT"@ {
        pure_step(func, spec_concat(params), memory)
    } else if func == "APPLY"@ {
        pure_step(func, spec_apply(params), memory)
    } else if func == "SELECT"@ {
        pure_step(func, spec_select(params), memory)
    } else if func == "MEASURE"@ {
        spec_measure_op(func, params, memory)
    } else {
        Err(failed(memory, ErrorView::NotImplemented))
    }
}

/// Binds `name` in `region` to the value of a step. The heap takes
/// matrices, numbers and selections, the measurement log takes measurements.
pub open spec fn spec_assign<T>(name: Seq<char>, region: MemoryLocation, step: Step<T>) -> Result<
    Step<T>, Failure<T>> {
    match step.value {
        None => Err(failed(step.memory, syntax("Variable not found"@))),
        Some((source, value)) => match (region, value) {
            (MemoryLocation::Heap, ValueView::Measurement(m, bits)) => Err(
                failed(step.memory, syntax("Invalid assignment"@)),
            ),
            (MemoryLocation::Heap, v) => Ok(
                Step {
                    memory: MemoryView { heap: step.memory.heap.insert(name, v), ..step.memory },
                    value: None,
                },
            ),
            (MemoryLocation::Measurement, ValueView::Measurement(m, bits)) => Ok(
                Step {
                    memory: MemoryView {
                        measurements: step.memory.measurements.insert(name, (m, bits)),
                        ..step.memory
                    },
                    value: None,
                },
            ),
            _ => Err(failed(step.memory, syntax("Invalid assignment"@))),
        },
    }
}

/// The evaluation of a node.
///
/// A literal gives its value under the name `_`. An identifier gives the
/// value that it is bound to on the heap, under its own name. An assignment
/// evaluates its body and binds the result. An application evaluates its
/// operands from left to right and applies the operation to those that
/// gave a value.
pub open spec fn spec_node<T: Scalar>(node: AstView, memory: MemoryView<T>) -> Result<
    Step<T>, Failure<T>>
    decreases node, 0nat,
{
    match node {
        AstView::Literal(v) => pure_step("_"@, spec_literal::<T>(v), memory),
        AstView::Identifier(name) => if memory.heap.contains_key(name) {
            Ok(Step { memory, value: Some((name, memory.heap[name])) })
        } else {
            Err(failed(memory, syntax("Variable not found"@)))
        },
        AstView::VariableAssignment(name, region, body) => match spec_node(*body, memory) {
            Ok(step) => spec_assign(name, region, step),
            Err(e) => Err(e),
        },
        AstView::FunctionApplication(func, args) => match spec_args(args, args.len(), memory) {
            Ok((after, params)) => spec_builtin(func, params, after),
            Err(e) => Err(e),
        },
    }
}

/// The evaluation of the first `n` operands, from left to right.
pub open spec fn spec_args<T: Scalar>(args: Seq<AstView>, n: nat, memory: MemoryView<T>) -> Result<
    (MemoryView<T>, Seq<Named<T>>), Failure<T>>
    decreases args, n,
{
    if n == 0 || n > args.len() {
        Ok((memory, Seq::empty()))
    } else {
        match spec_args(args, (n - 1) as nat, memory) {
            Err(e) => Err(e),
            Ok((before, params)) => match spec_node(args[n - 1], before) {
                Err(e) => Err(e),
                Ok(step) => Ok(
                    (
                        step.memory,
                        match step.value {
                            Some(p) => params.push(p),
                            None => params,
                        },
                    ),
                ),
            },
        }
    }
}

/// The memory after the first `n` statements of a program.
pub open spec fn spec_statements<T: Scalar>(nodes: Seq<AstView>, n: nat, memory: MemoryView<T>)
    -> Result<MemoryView<T>, Failure<T>>
    decreases n,
{
    if n == 0 || n > nodes.len() {
        Ok(memory)
    } else {
        match spec_statements(nodes, (n - 1) as nat, memory) {
            Err(e) => Err(e),
            Ok(before) => match spec_node(nodes[n - 1], before) {
                Err(e) => Err(e),
                Ok(step) => Ok(step.memory),
            },
        }
    }
}

/// The measurement log of a run of a program with the given draws.
pub open spec fn spec_execute<T: Scalar>(nodes: Seq<AstView>, draws: Seq<u128>) -> Result<
    Map<Seq<char>, (Seq<Seq<T>>, Seq<char>)>,
    ErrorView,
> {
    match spec_statements(nodes, nodes.len(), initial_memory::<T>(draws)) {
        Ok(memory) => Ok(memory.measurements),
        Err(failure) => Err(failure.error),
    }
}

/// The views of evaluated operands.
pub open spec fn params_view<T>(params: Seq<(String, LiteralValue<T>)>) -> Seq<Named<T>> {
    Seq::new(params.len(), |i: int| (params[i].0@, params[i].1@))
}

/// The matrices of all operands are well formed.
pub open spec fn params_ok<T>(params: Seq<(String, LiteralValue<T>)>) -> bool {
    forall|i: int| 0 <= i < params.len() ==> value_ok(#[trigger] params[i].1@)
}

/// The view of the outcome of an operation that gives a value.
pub open spec fn value_result<T>(r: Result<LiteralValue<T>, RunTimeError>) -> Result<
    ValueView<T>,
    ErrorView,
> {
    match r {
        Ok(v) => Ok(v@),
        Err(e) => Err(e@),
    }
}

/// The view of a named value, if there is one.
pub open spec fn named_view<T>(value: Option<(String, LiteralValue<T>)>) -> Option<Named<T>> {
    match value {
        Some((name, v)) => Some((name@, v@)),
        None => None,
    }
}

/// The view of the outcome of the evaluation of a node, with the memory
/// after it.
pub open spec fn step_result<T>(
    r: Result<Option<(String, LiteralValue<T>)>, RunTimeError>,
    memory: MemoryView<T>,
) -> Result<Step<T>, Failure<T>> {
    match r {
        Ok(value) => Ok(Step { memory, value: named_view(value) }),
        Err(e) => Err(failed(memory, e@)),
    }
}

/// The value of an outcome, if it has one, has well-formed matrices.
pub open spec fn outcome_ok<T>(r: Result<Option<(String, LiteralValue<T>)>, RunTimeError>) -> bool {
    match r {
        Ok(Some((name, v))) => value_ok(v@),
        _ => true,
    }
}

/// The view of the outcome of a statement, which gives no value, with the
/// memory after it.
pub open spec fn statement_result<T>(
    r: Result<Option<LiteralValue<T>>, RunTimeError>,
    memory: MemoryView<T>,
) -> Result<Step<T>, Failure<T>> {
    match r {
        Ok(_) => Ok(Step { memory, value: None }),
        Err(e) => Err(failed(memory, e@)),
    }
}

/// The view of the outcome of a run.
pub open spec fn run_result<T>(r: Result<Table<(Matrix<T>, String)>, RunTimeError>) -> Result<
    Map<Seq<char>, (Seq<Seq<T>>, Seq<char>)>,
    ErrorView,
> {
    match r {
        Ok(log) => Ok(log_view(log@)),
        Err(e) => Err(e@),
    }
}

/// A power of two fits the machine word if its exponent is below the number
/// of bits of the word, and only then.
pub proof fn lemma_pow2_fits(e: nat)
    ensures
        pow2(e) <= usize::MAX <==> e < usize::BITS,
{
    vstd::arithmetic::power2::lemma2_to64();
    vstd::arithmetic::power2::lemma2_to64_rest();
    assert(usize::BITS == 32 || usize::BITS == 64);
    if e < usize::BITS {
        vstd::bits::lemma_usize_pow2_no_overflow(e);
    } else if e > usize::BITS {
        vstd::arithmetic::power2::lemma_pow2_strictly_increases(usize::BITS as nat, e);
    }
}

fn syntax_error(reason: &str) -> (e: RunTimeError)
    ensures
        e@ == syntax(reason@),
{
    RunTimeError::SyntaxError(String::from_str(reason))
}

fn measure_failure(e: MeasureError) -> (r: RunTimeError)
    ensures
        r@ == measure_error(e),
{
    match e {
        MeasureError::NotAQubitVector => syntax_error(
            "Invalid input for MEASURE, should be a vector of size power of two",
        ),
        MeasureError::InvalidRange => syntax_error("Invalid range for MEASURE"),
    }
}

/// A copy of a value.
pub fn copy_value<T: Scalar>(value: &LiteralValue<T>) -> (r: LiteralValue<T>)
    ensures
        r@ == value@,
{
    match value {
        LiteralValue::Matrix(m) => LiteralValue::Matrix(m.copy()),
        LiteralValue::Int(n) => LiteralValue::Int(*n),
        LiteralValue::Selection(name, region, from, to) => LiteralValue::Selection(
            name.clone(),
            *region,
            *from,
            *to,
        ),
        LiteralValue::Measurement(m, bits) => LiteralValue::Measurement(m.copy(), bits.clone()),
    }
}

/// The matrix of a value, or an error if the value is no matrix.
pub fn unwrap_matrix<T: Scalar>(lit: &LiteralValue<T>) -> (r: Result<&Matrix<T>, RunTimeError>)
    ensures
        match r {
            Ok(m) => lit@ == ValueView::Matrix(m@) && (value_ok(lit@) ==> m.wf()),
            Err(e) => !(lit@ is Matrix) && e@ == syntax("Invalid matrix"@),
        },
{
    match lit {
        LiteralValue::Matrix(m) => Ok(m),
        _ => Err(syntax_error("Invalid matrix")),
    }
}

/// The parts of a selection, or an error if the value is no selection.
pub fn unwrap_selection<T: Scalar>(lit: &LiteralValue<T>) -> (r: Result<
    (&String, &MemoryLocation, &i32, &i32),
    RunTimeError,
>)
    ensures
        match r {
            Ok((key, region, from, to)) => lit@ == ValueView::<T>::Selection(
                key@,
                *region,
                *from,
                *to,
            ),
            Err(e) => !(lit@ is Selection) && e@ == syntax("Invalid matrix"@),
        },
{
    match lit {
        LiteralValue::Selection(key, mem, from, to) => Ok((key, mem, from, to)),
        _ => Err(syntax_error("Invalid matrix")),
    }
}

/// The number of a value, or an error if the value is no number.
pub fn unwrap_int<T: Scalar>(lit: &LiteralValue<T>) -> (r: Result<&i32, RunTimeError>)
    ensures
        match r {
            Ok(n) => lit@ == ValueView::<T>::Int(*n),
            Err(e) => !(lit@ is Int) && e@ == syntax("Invalid matrix"@),
        },
{
    match lit {
        LiteralValue::Int(m) => Ok(m),
        _ => Err(syntax_error("Invalid matrix")),
    }
}

/// Checks the number of operands.
pub fn validate_param_len<T: Scalar>(params: &Vec<(String, LiteralValue<T>)>, expected: usize) -> (r:
    Result<(), RunTimeError>)
    ensures
        match r {
            Ok(_) => params@.len() == expected,
            Err(e) => params@.len() != expected && e@ == syntax("Invalid number of parameters"@),
        },
{
    if params.len() != expected {
        return Err(syntax_error("Invalid number of parameters"));
    }
    Ok(())
}

fn gate_value<T: Scalar>(gate: Option<Matrix<T>>) -> (r: Result<LiteralValue<T>, RunTimeError>)
    ensures
        r matches Ok(v) ==> gate matches Some(m) && v@ == ValueView::Matrix(m@),
        r matches Err(e) ==> gate.is_none() && e@ == ErrorView::NotImplemented,
{
    match gate {
        Some(m) => Ok(LiteralValue::Matrix(m)),
        None => Err(RunTimeError::NotImplemented),
    }
}

/// The numbers as natural numbers.
pub open spec fn number_views(numbers: Option<Vec<usize>>) -> Option<Seq<nat>> {
    match numbers {
        Some(ns) => Some(Seq::new(ns@.len(), |i: int| ns@[i] as nat)),
        None => None,
    }
}

fn phase_literal<T: Scalar>(numbers: Option<Vec<usize>>) -> (r: Result<LiteralValue<T>, RunTimeError>)
    ensures
        phase_gives(number_views(numbers), value_result(r)),
        T::exact() ==> value_result(r) == spec_phase_literal::<T>(number_views(numbers)),
        r matches Ok(v) ==> value_ok(v@),
{
    match numbers {
        Some(ns) => {
            if ns.len() != 1 || ns[0] == 0 || ns[0] as u64 > u64::MAX / 2 {
                return Err(syntax_error("Invalid literal"));
            }
            gate_value(crate::gates::phase_shift::<T>(ns[0] as u64))
        },
        None => Err(syntax_error("Invalid literal")),
    }
}

fn identity_literal<T: Scalar>(numbers: Option<Vec<usize>>) -> (r: Result<
    LiteralValue<T>,
    RunTimeError,
>)
    ensures
        identity_gives(number_views(numbers), value_result(r)),
        T::exact() ==> value_result(r) == spec_identity_literal::<T>(number_views(numbers)),
        r matches Ok(v) ==> value_ok(v@),
{
    match numbers {
        Some(ns) => {
            if ns.len() != 1 || ns[0] == 0 {
                return Err(syntax_error("Invalid literal"));
            }
            Ok(LiteralValue::Matrix(Matrix::identity(ns[0])))
        },
        None => Err(syntax_error("Invalid literal")),
    }
}

fn oracle_literal<T: Scalar>(numbers: Option<Vec<usize>>) -> (r: Result<
    LiteralValue<T>,
    RunTimeError,
>)
    ensures
        oracle_gives(number_views(numbers), value_result(r)),
        T::exact() ==> value_result(r) == spec_oracle_literal::<T>(number_views(numbers)),
        r matches Ok(v) ==> value_ok(v@),
{
    match numbers {
        Some(ns) => {
            if ns.len() != 2 || ns[0] > u32::MAX as usize || ns[1] == 0 || ns[1] > u32::MAX as usize {
                return Err(syntax_error("Invalid literal"));
            }
            let k = crate::util::min_bit_size(ns[1] as u32) as usize;
            proof {
                lemma_pow2_fits(crate::gates::oracle_qubits(ns[1] as nat));
            }
            if 3 * k >= usize::BITS as usize {
                return Err(syntax_error("Invalid literal"));
            }
            Ok(LiteralValue::Matrix(crate::gates::unitary_modular(ns[0], ns[1])))
        },
        None => Err(syntax_error("Invalid literal")),
    }
}

fn fourier_literal<T: Scalar>(numbers: Option<Vec<usize>>) -> (r: Result<
    LiteralValue<T>,
    RunTimeError,
>)
    ensures
        fourier_gives(number_views(numbers), value_result(r)),
        T::exact() ==> value_result(r) == spec_fourier_literal::<T>(number_views(numbers)),
        r matches Ok(v) ==> value_ok(v@),
{
    match numbers {
        Some(ns) => {
            if ns.len() != 1 {
                return Err(syntax_error("Invalid literal"));
            }
            proof {
                lemma_pow2_fits(ns[0] as nat);
            }
            if ns[0] >= usize::BITS as usize {
                return Err(syntax_error("Invalid literal"));
            }
            match crate::gates::quantum_fourier::<T>(ns[0]) {
                Some(m) => {
                    let inverse = m.adjoint();
                    assert(crate::matrix::is_adjoint_of(m@, inverse@));
                    assert(crate::outcomes::is_inverse_fourier(inverse@, pow2(ns[0] as nat)));
                    Ok(LiteralValue::Matrix(inverse))
                },
                None => Err(RunTimeError::NotImplemented),
            }
        },
        None => Err(syntax_error("Invalid literal")),
    }
}

/// Resolves a literal: a gate name gives its gate, and a run of digits
/// gives the number it spells. The gates are `G_H`, `G_CNOT`, `G_I_d` (the identity of
/// dimension `d`), `G_R_k` (the phase shift by `pi / k`), `G_Uf_a_n` (the
/// modular exponentiation) and `G_QFTI_k` (the inverse Fourier transform of
/// `k` qubits).
pub fn parse_literal<T: Scalar>(v: &String) -> (r: Result<LiteralValue<T>, RunTimeError>)
    ensures
        literal_gives(v@, value_result(r)),
        T::exact() ==> value_result(r) == spec_literal::<T>(v@),
        r matches Ok(value) ==> value_ok(value@),
{
    if crate::parser::text_is(v, "G_H") {
        gate_value(crate::gates::hadamard::<T>())
    } else if crate::parser::text_is(v, "G_CNOT") {
        Ok(LiteralValue::Matrix(crate::gates::cnot()))
    } else if crate::prefabs::matches_shape(v, "G_R_", 1) {
        phase_literal(crate::prefabs::parse_params_from_prefebs(v, 1))
    } else if crate::prefabs::matches_shape(v, "G_I_", 1) {
        identity_literal(crate::prefabs::parse_params_from_prefebs(v, 1))
    } else if crate::prefabs::matches_shape(v, "G_Uf_", 2) {
        oracle_literal(crate::prefabs::parse_params_from_prefebs(v, 2))
    } else if crate::prefabs::matches_shape(v, "G_QFTI_", 1) {
        fourier_literal(crate::prefabs::parse_params_from_prefebs(v, 1))
    } else {
        let chars = crate::text::chars_of(v.as_str());
        if crate::lexer::chars_start_with(&chars, "G_") {
            Err(RunTimeError::NotImplemented)
        } else {
            match crate::prefabs::parse_decimal(v, i32::MAX as u64) {
                Some(n) => Ok(LiteralValue::Int(n as i32)),
                None => Err(syntax_error("Invalid literal")),
            }
        }
    }
}

/// The value that a name is bound to on the heap.
pub fn parse_identifier<T: Scalar>(var_name: &String, memory: &QuantumMemory<T>) -> (r: Result<
    LiteralValue<T>,
    RunTimeError,
>)
    requires
        memory.wf(),
    ensures
        match r {
            Ok(v) => memory@.heap.contains_key(var_name@) && v@ == memory@.heap[var_name@]
                && value_ok(v@),
            Err(e) => !memory@.heap.contains_key(var_name@) && e@ == syntax("Variable not found"@),
        },
{
    match memory.heap.get(var_name.as_str()) {
        Some(val) => Ok(copy_value(val)),
        None => Err(syntax_error("Variable not found")),
    }
}

/// The two matrices of an operation on two matrices.
fn both_matrices<T: Scalar>(params: &Vec<(String, LiteralValue<T>)>) -> (r: Result<
    (&Matrix<T>, &Matrix<T>),
    RunTimeError,
>)
    requires
        params_ok(params@),
    ensures
        match r {
            Ok((a, b)) => two_matrices(params_view(params@)) == Ok::<
                (Seq<Seq<T>>, Seq<Seq<T>>),
                ErrorView,
            >((a@, b@)) && a.wf() && b.wf(),
            Err(e) => two_matrices(params_view(params@)) == Err::<
                (Seq<Seq<T>>, Seq<Seq<T>>),
                ErrorView,
            >(e@),
        },
{
    match validate_param_len(params, 2) {
        Err(e) => {
            return Err(e);
        },
        Ok(_) => {},
    }
    let a = match unwrap_matrix(&params[0].1) {
        Ok(m) => m,
        Err(e) => {
            return Err(e);
        },
    };
    let b = match unwrap_matrix(&params[1].1) {
        Ok(m) => m,
        Err(e) => {
            return Err(e);
        },
    };
    Ok((a, b))
}

fn run_initialize<T: Scalar>(params: &Vec<(String, LiteralValue<T>)>) -> (r: Result<
    LiteralValue<T>,
    RunTimeError,
>)
    requires
        params_ok(params@),
    ensures
        initialize_gives(params_view(params@), value_result(r)),
        T::exact() ==> value_result(r) == spec_initialize::<T>(params_view(params@)),
        r matches Ok(v) ==> value_ok(v@),
{
    match validate_param_len(params, 1) {
        Err(e) => {
            return Err(e);
        },
        Ok(_) => {},
    }
    let n: i32 = match unwrap_int(&params[0].1) {
        Ok(n) => *n,
        Err(e) => {
            return Err(e);
        },
    };
    proof {
        if n >= 0 {
            lemma_pow2_fits(n as nat);
        }
    }
    if n < 0 || n as usize >= usize::BITS as usize {
        return Err(syntax_error("Invalid size for INITIALIZE"));
    }
    let size = crate::util::power_of_two(n as usize);
    proof {
        vstd::arithmetic::power2::lemma_pow2_pos(n as nat);
    }
    Ok(LiteralValue::Matrix(Matrix::<T>::unit_column(size)))
}

fn run_inverse<T: Scalar>(params: &Vec<(String, LiteralValue<T>)>) -> (r: Result<
    LiteralValue<T>,
    RunTimeError,
>)
    requires
        params_ok(params@),
    ensures
        inverse_gives(params_view(params@), value_result(r)),
        T::exact() ==> value_result(r) == spec_inverse::<T>(params_view(params@)),
        r matches Ok(v) ==> value_ok(v@),
{
    match validate_param_len(params, 1) {
        Err(e) => {
            return Err(e);
        },
        Ok(_) => {},
    }
    let m = match unwrap_matrix(&params[0].1) {
        Ok(m) => m,
        Err(e) => {
            return Err(e);
        },
    };
    if !m.is_hermitian() {
        return Err(syntax_error("Input invalid for INVERSE, should be a hermetian matrix"));
    }
    Ok(LiteralValue::Matrix(m.adjoint()))
}

fn run_tensor<T: Scalar>(params: &Vec<(String, LiteralValue<T>)>) -> (r: Result<
    LiteralValue<T>,
    RunTimeError,
>)
    requires
        params_ok(params@),
    ensures
        tensor_gives(params_view(params@), value_result(r)),
        T::exact() ==> value_result(r) == spec_tensor_op::<T>(params_view(params@)),
        r matches Ok(v) ==> value_ok(v@),
{
    let (a, b) = match both_matrices(params) {
        Ok(pair) => pair,
        Err(e) => {
            return Err(e);
        },
    };
    let (ra, ca) = a.size();
    let (rb, cb) = b.size();
    if ra.checked_mul(rb).is_none() || ca.checked_mul(cb).is_none() {
        return Err(syntax_error("Matrix too large for TENSOR"));
    }
    Ok(LiteralValue::Matrix(a.tensor(b)))
}

fn run_concat<T: Scalar>(params: &Vec<(String, LiteralValue<T>)>) -> (r: Result<
    LiteralValue<T>,
    RunTimeError,
>)
    requires
        params_ok(params@),
    ensures
        concat_gives(params_view(params@), value_result(r)),
        T::exact() ==> value_result(r) == spec_concat::<T>(params_view(params@)),
        r matches Ok(v) ==> value_ok(v@),
{
    let (a, b) = match both_matrices(params) {
        Ok(pair) => pair,
        Err(e) => {
            return Err(e);
        },
    };
    let (ra, ca) = a.size();
    let (rb, cb) = b.size();
    if ra != rb || ca != cb || ca != rb {
        return Err(syntax_error("Matrix sizes should be equal to CONCAT"));
    }
    Ok(LiteralValue::Matrix(a.product(b)))
}

fn run_apply<T: Scalar>(params: &Vec<(String, LiteralValue<T>)>) -> (r: Result<
    LiteralValue<T>,
    RunTimeError,
>)
    requires
        params_ok(params@),
    ensures
        apply_gives(params_view(params@), value_result(r)),
        T::exact() ==> value_result(r) == spec_apply::<T>(params_view(params@)),
        r matches Ok(v) ==> value_ok(v@),
{
    let (u, v) = match both_matrices(params) {
        Ok(pair) => pair,
        Err(e) => {
            return Err(e);
        },
    };
    let (ru, cu) = u.size();
    let (rv, cv) = v.size();
    if cv != 1 || rv != cu || ru != cu {
        return Err(
            syntax_error(
                "Input invalid for APPLY, first arg should be a square matrix & the second arg should be vector with equal columns",
            ),
        );
    }
    Ok(LiteralValue::Matrix(u.product(v)))
}

fn run_select<T: Scalar>(params: &Vec<(String, LiteralValue<T>)>) -> (r: Result<
    LiteralValue<T>,
    RunTimeError,
>)
    requires
        params_ok(params@),
    ensures
        value_result(r) == spec_select::<T>(params_view(params@)),
        r matches Ok(v) ==> value_ok(v@),
{
    match validate_param_len(params, 3) {
        Err(e) => {
            return Err(e);
        },
        Ok(_) => {},
    }
    let m = match unwrap_matrix(&params[0].1) {
        Ok(m) => m,
        Err(e) => {
            return Err(e);
        },
    };
    let from: i32 = match unwrap_int(&params[1].1) {
        Ok(n) => *n,
        Err(e) => {
            return Err(e);
        },
    };
    let to: i32 = match unwrap_int(&params[2].1) {
        Ok(n) => *n,
        Err(e) => {
            return Err(e);
        },
    };
    match crate::quantum_sim::qbit_length(m) {
        Some(q) => {
            if from < 0 || from > to || to as usize > q {
                return Err(syntax_error("Invalid range for SELECT"));
            }
            Ok(LiteralValue::Selection(params[0].0.clone(), MemoryLocation::Heap, from, to))
        },
        None => Err(syntax_error("Invalid range for SELECT")),
    }
}

/// The draw that the next measurement takes.
fn peek_draw<T: Scalar>(memory: &QuantumMemory<T>) -> (d: u128)
    ensures
        d == next_draw(memory@),
{
    if memory.used < memory.draws.len() {
        memory.draws[memory.used]
    } else {
        0
    }
}

/// Takes the draw for the next measurement.
fn take_draw<T: Scalar>(memory: &mut QuantumMemory<T>) -> (d: u128)
    requires
        old(memory).wf(),
    ensures
        final(memory).wf(),
        d == next_draw(old(memory)@),
        final(memory)@ == after_draw(old(memory)@),
        final(memory).heap == old(memory).heap,
        final(memory).measurements == old(memory).measurements,
{
    if memory.used < memory.draws.len() {
        let d = memory.draws[memory.used];
        memory.used = memory.used + 1;
        d
    } else {
        0
    }
}

fn run_measure<T: Scalar>(
    func: &String,
    params: &Vec<(String, LiteralValue<T>)>,
    memory: &mut QuantumMemory<T>,
) -> (r: Result<Option<(String, LiteralValue<T>)>, RunTimeError>)
    requires
        params_ok(params@),
        old(memory).wf(),
    ensures
        final(memory).wf(),
        outcome_ok(r),
        measure_gives(func@, params_view(params@), old(memory)@, step_result(r, final(memory)@)),
        T::exact() ==> step_result(r, final(memory)@) == spec_measure_op::<T>(
            func@,
            params_view(params@),
            old(memory)@,
        ),
{
    match validate_param_len(params, 1) {
        Err(e) => {
            return Err(e);
        },
        Ok(_) => {},
    }
    match &params[0].1 {
        LiteralValue::Matrix(m) => {
            match crate::quantum_sim::measure_vec_with(m, peek_draw(memory)) {
                Ok(bits) => {
                    let _ = take_draw(memory);
                    Ok(Some((func.clone(), LiteralValue::Measurement(m.copy(), bits))))
                },
                Err(e) => Err(measure_failure(e)),
            }
        },
        LiteralValue::Selection(key, region, from, to) => {
            let ghost before = memory@;
            let measured = match memory.heap.get(key.as_str()) {
                None => {
                    assert(!before.heap.contains_key(key@));
                    return Err(syntax_error("Variable not found"));
                },
                Some(value) => {
                    assert(before.heap[key@] == value@);
                    match value {
                        LiteralValue::Matrix(m) => {
                            crate::quantum_sim::measure_partial_vec_with(
                                m,
                                *from,
                                *to,
                                peek_draw(memory),
                            )
                        },
                        _ => {
                            return Err(syntax_error("Invalid matrix"));
                        },
                    }
                },
            };
            match measured {
                Ok((state, bits)) => {
                    let collapsed = state.copy();
                    let _ = take_draw(memory);
                    let ghost old_heap = memory.heap@;
                    memory.heap.insert(key.clone(), LiteralValue::Matrix(state));
                    proof {
                        assert(heap_view(memory.heap@) =~= heap_view(old_heap).insert(
                            key@,
                            ValueView::Matrix(collapsed@),
                        ));
                    }
                    Ok(Some((func.clone(), LiteralValue::Measurement(collapsed, bits))))
                },
                Err(e) => Err(measure_failure(e)),
            }
        },
        _ => Err(syntax_error("Invalid matrix")),
    }
}

/// Binds a name in a region to the value of a node.
fn assign<T: Scalar>(
    var_name: &String,
    memory_loc: &MemoryLocation,
    value: Option<(String, LiteralValue<T>)>,
    memory: &mut QuantumMemory<T>,
) -> (r: Result<Option<LiteralValue<T>>, RunTimeError>)
    requires
        old(memory).wf(),
        value matches Some((name, v)) ==> value_ok(v@),
    ensures
        final(memory).wf(),
        r matches Ok(v) ==> v.is_none(),
        statement_result(r, final(memory)@) == spec_assign(
            var_name@,
            *memory_loc,
            Step { memory: old(memory)@, value: named_view(value) },
        ),
{
    match value {
        None => Err(syntax_error("Variable not found")),
        Some((source, v)) => {
            match memory_loc {
                MemoryLocation::Heap => {
                    match v {
                        LiteralValue::Measurement(m, bits) => Err(syntax_error("Invalid assignment")),
                        other => {
                            let ghost old_heap = memory.heap@;
                            let ghost view = other@;
                            memory.heap.insert(var_name.clone(), other);
                            proof {
                                assert(heap_view(memory.heap@) =~= heap_view(old_heap).insert(
                                    var_name@,
                                    view,
                                ));
                            }
                            Ok(None)
                        },
                    }
                },
                MemoryLocation::Measurement => {
                    match v {
                        LiteralValue::Measurement(m, bits) => {
                            let ghost old_log = memory.measurements@;
                            let ghost entry = (m@, bits@);
                            memory.measurements.insert(var_name.clone(), (m, bits));
                            proof {
                                assert(log_view(memory.measurements@) =~= log_view(old_log).insert(
                                    var_name@,
                                    entry,
                                ));
                            }
                            Ok(None)
                        },
                        _ => Err(syntax_error("Invalid assignment")),
                    }
                },
            }
        },
    }
}

/// Applies the built-in operation `func` to evaluated operands.
fn apply_builtin<T: Scalar>(
    func: &String,
    params: &Vec<(String, LiteralValue<T>)>,
    memory: &mut QuantumMemory<T>,
) -> (r: Result<Option<(String, LiteralValue<T>)>, RunTimeError>)
    requires
        params_ok(params@),
        old(memory).wf(),
    ensures
        final(memory).wf(),
        outcome_ok(r),
        builtin_gives(func@, params_view(params@), old(memory)@, step_result(r, final(memory)@)),
        T::exact() ==> step_result(r, final(memory)@) == spec_builtin::<T>(
            func@,
            params_view(params@),
            old(memory)@,
        ),
{
    let value = if crate::parser::text_is(func, "INITIALIZE") {
        run_initialize(params)
    } else if crate::parser::text_is(func, "INVERSE") {
        run_inverse(params)
    } else if crate::parser::text_is(func, "TENSOR") {
        run_tensor(params)
    } else if crate::parser::text_is(func, "CONCAT") {
        run_concat(params)
    } else if crate::parser::text_is(func, "APPLY") {
        run_apply(params)
    } else if crate::parser::text_is(func, "SELECT") {
        run_select(params)
    } else if crate::parser::text_is(func, "MEASURE") {
        return run_measure(func, params, memory);
    } else {
        return Err(RunTimeError::NotImplemented);
    };
    let ghost given = value_result(value);
    let r = match value {
        Ok(v) => Ok(Some((func.clone(), v))),
        Err(e) => Err(e),
    };
    proof {
        assert(value_gives(func@, params_view(params@), given));
        assert(is_pure_step(func@, memory@, given, step_result(r, memory@)));
    }
    r
}

/// Evaluates the body of an assignment and binds the result: matrices,
/// numbers and selections on the heap, measurements in the measurement log.
pub fn parse_var_assignment<T: Scalar>(
    var_name: &String,
    val: &ASTNode,
    memory_loc: &MemoryLocation,
    memory: &mut QuantumMemory<T>,
) -> (r: Result<Option<LiteralValue<T>>, RunTimeError>)
    requires
        old(memory).wf(),
    ensures
        final(memory).wf(),
        r matches Ok(v) ==> v.is_none(),
        node_gives(
            AstView::VariableAssignment(var_name@, *memory_loc, Box::new(val@)),
            old(memory)@,
            statement_result(r, final(memory)@),
        ),
        T::exact() ==> statement_result(r, final(memory)@) == spec_node::<T>(
            AstView::VariableAssignment(var_name@, *memory_loc, Box::new(val@)),
            old(memory)@,
        ),
    decreases val, 1nat,
{
    let value = match execute_ast_node(val, memory) {
        Ok(v) => v,
        Err(e) => {
            proof {
                let inner = Err::<Step<T>, Failure<T>>(failed(memory@, e@));
                assert(is_assigned(var_name@, *memory_loc, inner, inner));
            }
            return Err(e);
        },
    };
    let ghost inner = Ok::<Step<T>, Failure<T>>(Step { memory: memory@, value: named_view(value) });
    let r = assign(var_name, memory_loc, value, memory);
    proof {
        assert(is_assigned(var_name@, *memory_loc, inner, statement_result(r, memory@)));
    }
    r
}

/// Evaluates the operands of an application from left to right and applies
/// the operation to those that gave a value.
pub fn parse_func_application<T: Scalar>(
    func: &String,
    params: &Vec<ASTNode>,
    memory: &mut QuantumMemory<T>,
) -> (r: Result<Option<(String, LiteralValue<T>)>, RunTimeError>)
    requires
        old(memory).wf(),
    ensures
        final(memory).wf(),
        outcome_ok(r),
        node_gives(
            AstView::FunctionApplication(func@, crate::parser::ast_view(params@)),
            old(memory)@,
            step_result(r, final(memory)@),
        ),
        T::exact() ==> step_result(r, final(memory)@) == spec_node::<T>(
            AstView::FunctionApplication(func@, crate::parser::ast_view(params@)),
            old(memory)@,
        ),
    decreases params, 1nat,
{
    let ghost args = crate::parser::ast_view(params@);
    let ghost start = memory@;
    let mut values: Vec<(String, LiteralValue<T>)> = Vec::new();
    let mut i: usize = 0;
    proof {
        assert(params_view(values@) =~= Seq::<Named<T>>::empty());
    }
    while i < params.len()
        invariant
            i <= params.len(),
            args == crate::parser::ast_view(params@),
            start == old(memory)@,
            memory.wf(),
            params_ok(values@),
            args_give(
                args,
                i as nat,
                start,
                Ok::<(MemoryView<T>, Seq<Named<T>>), Failure<T>>((memory@, params_view(values@))),
            ),
            T::exact() ==> spec_args::<T>(args, i as nat, start) == Ok::<
                (MemoryView<T>, Seq<Named<T>>), Failure<T>>((memory@, params_view(values@))),
        decreases params.len() - i,
    {
        let ghost before = memory@;
        let ghost seen = params_view(values@);
        let ghost operands = Ok::<(MemoryView<T>, Seq<Named<T>>), Failure<T>>((before, seen));
        proof {
            assert(args[i as int] == params@[i as int]@);
            assert(((i + 1) as nat - 1) as nat == i as nat);
        }
        match execute_ast_node(&params[i], memory) {
            Err(e) => {
                proof {
                    let failure = failed(memory@, e@);
                    let stopped = Err::<(MemoryView<T>, Seq<Named<T>>), Failure<T>>(failure);
                    assert(is_with_operand(operands, Err::<Step<T>, Failure<T>>(failure), stopped));
                    assert(args_give(args, (i + 1) as nat, start, stopped));
                    crate::outcomes::lemma_args_stay_failed(
                        args,
                        (i + 1) as nat,
                        params.len() as nat,
                        start,
                        failure,
                    );
                    assert(args_give(args, args.len(), start, stopped));
                    assert(crate::outcomes::application_gives(
                        func@,
                        stopped,
                        Err::<Step<T>, Failure<T>>(failure),
                    ));
                    assert(node_gives(
                        AstView::FunctionApplication(func@, args),
                        start,
                        Err::<Step<T>, Failure<T>>(failure),
                    ));
                    if T::exact() {
                        assert(spec_node::<T>(args[i as int], before) is Err);
                        assert(spec_args::<T>(args, (i + 1) as nat, start) is Err);
                        lemma_args_error::<T>(args, (i + 1) as nat, params.len() as nat, start);
                    }
                }
                return Err(e);
            },
            Ok(Some(value)) => {
                values.push(value);
                proof {
                    assert(params_view(values@) =~= seen.push((value.0@, value.1@)));
                    let last = Ok::<Step<T>, Failure<T>>(
                        Step { memory: memory@, value: Some((value.0@, value.1@)) },
                    );
                    assert(is_with_operand(
                        operands,
                        last,
                        Ok::<(MemoryView<T>, Seq<Named<T>>), Failure<T>>(
                            (memory@, params_view(values@)),
                        ),
                    ));
                }
            },
            Ok(None) => {
                proof {
                    let last = Ok::<Step<T>, Failure<T>>(Step { memory: memory@, value: None });
                    assert(is_with_operand(
                        operands,
                        last,
                        Ok::<(MemoryView<T>, Seq<Named<T>>), Failure<T>>((memory@, seen)),
                    ));
                }
            },
        }
        i = i + 1;
    }
    let ghost operands = Ok::<(MemoryView<T>, Seq<Named<T>>), Failure<T>>(
        (memory@, params_view(values@)),
    );
    let r = apply_builtin(func, &values, memory);
    proof {
        assert(args_give(args, args.len(), start, operands));
        assert(crate::outcomes::application_gives(func@, operands, step_result(r, memory@)));
        assert(node_gives(
            AstView::FunctionApplication(func@, args),
            start,
            step_result(r, memory@),
        ));
    }
    r
}

/// Evaluates a node.
///
/// A literal gives its value under the name `_`. An identifier gives a copy
/// of the value that it is bound to on the heap, under its own name. An
/// assignment evaluates its body and binds the result; it gives no value.
/// An application gives the result of its operation under the name of the
/// operation.
pub fn execute_ast_node<T: Scalar>(ast_node: &ASTNode, memory: &mut QuantumMemory<T>) -> (r: Result<
    Option<(String, LiteralValue<T>)>,
    RunTimeError,
>)
    requires
        old(memory).wf(),
    ensures
        final(memory).wf(),
        outcome_ok(r),
        node_gives(ast_node@, old(memory)@, step_result(r, final(memory)@)),
        T::exact() ==> step_result(r, final(memory)@) == spec_node::<T>(
            ast_node@,
            old(memory)@,
        ),
    decreases ast_node, 0nat,
{
    match ast_node {
        ASTNode::Literal(val) => {
            let value = parse_literal::<T>(val);
            let ghost given = value_result(value);
            let r = match value {
                Ok(value) => Ok(Some((String::from_str("_"), value))),
                Err(e) => Err(e),
            };
            proof {
                assert(is_pure_step("_"@, memory@, given, step_result(r, memory@)));
            }
            r
        },
        ASTNode::Identifier(var_name) => {
            match parse_identifier(var_name, memory) {
                Ok(value) => Ok(Some((var_name.clone(), value))),
                Err(e) => Err(e),
            }
        },
        ASTNode::VariableAssignment(var_name, memory_loc, val) => {
            proof {
                assert(ast_node@ == AstView::VariableAssignment(
                    var_name@,
                    *memory_loc,
                    Box::new((**val)@),
                ));
            }
            match parse_var_assignment(var_name, &**val, memory_loc, memory) {
                Ok(_) => Ok(None),
                Err(e) => Err(e),
            }
        },
        ASTNode::FunctionApplication(func, params) => {
            proof {
                assert(ast_node@ == AstView::FunctionApplication(
                    func@,
                    crate::parser::ast_view(params@),
                )) by {
                    assert(ast_node@->FunctionApplication_1 =~= crate::parser::ast_view(params@));
                }
            }
            parse_func_application(func, params, memory)
        },
    }
}

/// Once the evaluation of the operands has failed, it stays failed.
proof fn lemma_args_error<T: Scalar>(args: Seq<AstView>, k: nat, n: nat, memory: MemoryView<T>)
    requires
        0 < k <= n <= args.len(),
        spec_args::<T>(args, k, memory) is Err,
    ensures
        spec_args::<T>(args, n, memory) == spec_args::<T>(args, k, memory),
    decreases n - k,
{
    if k < n {
        lemma_args_error::<T>(args, k, (n - 1) as nat, memory);
    }
}

/// Once a statement has failed, the run stays failed.
proof fn lemma_statements_error<T: Scalar>(nodes: Seq<AstView>, k: nat, n: nat, memory: MemoryView<T>)
    requires
        0 < k <= n <= nodes.len(),
        spec_statements::<T>(nodes, k, memory) is Err,
    ensures
        spec_statements::<T>(nodes, n, memory) == spec_statements::<T>(nodes, k, memory),
    decreases n - k,
{
    if k < n {
        lemma_statements_error::<T>(nodes, k, (n - 1) as nat, memory);
    }
}

/// Runs a program with the given draws for its measurements, and returns
/// the measurement log. The first statement that fails ends the run with
/// its error.
pub fn execute_script_with<T: Scalar>(ast: Vec<ASTNode>, draws: Vec<u128>) -> (r: Result<
    Table<(Matrix<T>, String)>,
    RunTimeError,
>)
    ensures
        r matches Ok(log) ==> log.wf(),
        execute_gives(crate::parser::ast_view(ast@), draws@, run_result(r)),
        T::exact() ==> run_result(r) == spec_execute::<T>(crate::parser::ast_view(ast@), draws@),
{
    let ghost nodes = crate::parser::ast_view(ast@);
    let mut memory = QuantumMemory::<T>::new(draws);
    let ghost start = memory@;
    let mut i: usize = 0;
    while i < ast.len()
        invariant
            i <= ast.len(),
            nodes == crate::parser::ast_view(ast@),
            memory.wf(),
            start == initial_memory::<T>(draws@),
            statements_give(nodes, i as nat, start, Ok::<MemoryView<T>, Failure<T>>(memory@)),
            T::exact() ==> spec_statements::<T>(nodes, i as nat, start) == Ok::<
                MemoryView<T>, Failure<T>>(memory@),
        decreases ast.len() - i,
    {
        let ghost before = memory@;
        let ghost so_far = Ok::<MemoryView<T>, Failure<T>>(before);
        proof {
            assert(nodes[i as int] == ast@[i as int]@);
            assert(((i + 1) as nat - 1) as nat == i as nat);
        }
        match execute_ast_node(&ast[i], &mut memory) {
            Err(e) => {
                proof {
                    let failure = failed(memory@, e@);
                    let stopped = Err::<MemoryView<T>, Failure<T>>(failure);
                    assert(is_with_statement(so_far, Err::<Step<T>, Failure<T>>(failure), stopped));
                    assert(statements_give(nodes, (i + 1) as nat, start, stopped));
                    crate::outcomes::lemma_statements_stay_failed(
                        nodes,
                        (i + 1) as nat,
                        ast.len() as nat,
                        start,
                        failure,
                    );
                    assert(is_log_of(
                        stopped,
                        Err::<Map<Seq<char>, (Seq<Seq<T>>, Seq<char>)>, ErrorView>(e@),
                    ));
                    if T::exact() {
                        assert(spec_node::<T>(nodes[i as int], before) is Err);
                        assert(spec_statements::<T>(nodes, (i + 1) as nat, start) is Err);
                        lemma_statements_error::<T>(nodes, (i + 1) as nat, ast.len() as nat, start);
                    }
                }
                return Err(e);
            },
            Ok(value) => {
                proof {
                    let last = Ok::<Step<T>, Failure<T>>(
                        Step { memory: memory@, value: named_view(value) },
                    );
                    assert(is_with_statement(
                        so_far,
                        last,
                        Ok::<MemoryView<T>, Failure<T>>(memory@),
                    ));
                }
            },
        }
        i = i + 1;
    }
    proof {
        assert(is_log_of(
            Ok::<MemoryView<T>, Failure<T>>(memory@),
            Ok::<Map<Seq<char>, (Seq<Seq<T>>, Seq<char>)>, ErrorView>(memory@.measurements),
        ));
    }
    Ok(memory.measurements)
}

/// The number of nodes of a tree.
pub open spec fn spec_count_nodes(node: AstView) -> nat
    decreases node, 0nat,
{
    match node {
        AstView::Literal(_) => 1,
        AstView::Identifier(_) => 1,
        AstView::VariableAssignment(_, _, body) => 1 + spec_count_nodes(*body),
        AstView::FunctionApplication(_, args) => 1 + spec_count_all(args, args.len()),
    }
}

/// The number of nodes of the first `n` of some trees.
pub open spec fn spec_count_all(nodes: Seq<AstView>, n: nat) -> nat
    decreases nodes, n,
{
    if n == 0 || n > nodes.len() {
        0
    } else {
        spec_count_all(nodes, (n - 1) as nat) + spec_count_nodes(nodes[n - 1])
    }
}

/// A count as a machine number: the greatest machine number stands for
/// every count above it.
pub open spec fn capped(count: nat) -> usize {
    if count > usize::MAX {
        usize::MAX
    } else {
        count as usize
    }
}

/// The number of nodes of a tree, as far as a machine number counts.
fn count_nodes(node: &ASTNode) -> (n: usize)
    ensures
        n == capped(spec_count_nodes(node@)),
    decreases node, 0nat,
{
    match node {
        ASTNode::Literal(_) => 1,
        ASTNode::Identifier(_) => 1,
        ASTNode::VariableAssignment(_, _, body) => count_nodes(&**body).saturating_add(1),
        ASTNode::FunctionApplication(_, args) => {
            proof {
                assert(node@->FunctionApplication_1 =~= crate::parser::ast_view(args@));
            }
            count_all(args).saturating_add(1)
        },
    }
}

/// The number of nodes of some trees, as far as a machine number counts.
fn count_all(nodes: &Vec<ASTNode>) -> (n: usize)
    ensures
        n == capped(spec_count_all(crate::parser::ast_view(nodes@), nodes@.len())),
    decreases nodes, 1nat,
{
    let ghost trees = crate::parser::ast_view(nodes@);
    let mut n: usize = 0;
    let mut i: usize = 0;
    while i < nodes.len()
        invariant
            i <= nodes.len(),
            trees == crate::parser::ast_view(nodes@),
            n == capped(spec_count_all(trees, i as nat)),
        decreases nodes.len() - i,
    {
        proof {
            assert(trees[i as int] == nodes@[i as int]@);
        }
        n = n.saturating_add(count_nodes(&nodes[i]));
        i = i + 1;
    }
    n
}

/// Random draws, one for every node of the program: no run takes more.
/// Every draw is a random number below the greatest draw.
fn random_draws(ast: &Vec<ASTNode>) -> (draws: Vec<u128>)
    ensures
        draws@.len() == capped(spec_count_all(crate::parser::ast_view(ast@), ast@.len())),
        forall|k: int| 0 <= k < draws@.len() ==> #[trigger] draws@[k] < u128::MAX,
{
    let count = count_all(ast);
    let mut draws: Vec<u128> = Vec::new();
    let mut k: usize = 0;
    while k < count
        invariant
            k <= count,
            draws@.len() == k,
            forall|j: int| 0 <= j < draws@.len() ==> #[trigger] draws@[j] < u128::MAX,
        decreases count - k,
    {
        draws.push(crate::chance::random_in_range(0, u128::MAX));
        k = k + 1;
    }
    draws
}

/// Runs a program and returns the measurement log. The outcomes of the
/// measurements are drawn at random.
pub fn execute_script<T: Scalar>(ast: Vec<ASTNode>) -> (r: Result<
    Table<(Matrix<T>, String)>,
    RunTimeError,
>)
    ensures
        r matches Ok(log) ==> log.wf(),
        exists|draws: Seq<u128>| #[trigger]
            execute_gives(crate::parser::ast_view(ast@), draws, run_result(r)),
        T::exact() ==> exists|draws: Seq<u128>|
            run_result(r) == #[trigger] spec_execute::<T>(crate::parser::ast_view(ast@), draws),
{
    let draws = random_draws(&ast);
    let ghost taken = draws@;
    let r = execute_script_with::<T>(ast, draws);
    assert(T::exact() ==> run_result(r) == spec_execute::<T>(crate::parser::ast_view(ast@), taken));
    assert(execute_gives(crate::parser::ast_view(ast@), taken, run_result(r)));
    r
}

/// The third character of a name with a prefix of three characters or
/// more is that of the prefix.
proof fn lemma_third_character(v: Seq<char>, prefix: Seq<char>)
    requires
        has_prefix(v, prefix),
        prefix.len() > 2,
    ensures
        v.len() > 2,
        v[2] == prefix[2],
{
    assert(v.take(prefix.len() as int)[2] == v[2]);
}

/// The value of a gate name with numbers is that of the numbers that the
/// name spells behind its prefix: `G_R_k` is the phase shift for `k`,
/// `G_I_d` the identity for `d`, `G_Uf_a_n` the modular exponentiation for
/// `a` and `n`, and `G_QFTI_k` the inverse Fourier transform for `k`.
pub proof fn lemma_gate_names<T: Scalar>(v: Seq<char>)
    ensures
        has_shape(v, "G_R_"@, 1) ==> spec_literal::<T>(v) == spec_phase_literal::<T>(
            crate::prefabs::spec_numbers(crate::prefabs::shaped_runs(v, "G_R_"@, 1), 1),
        ),
        has_shape(v, "G_I_"@, 1) ==> spec_literal::<T>(v) == spec_identity_literal::<T>(
            crate::prefabs::spec_numbers(crate::prefabs::shaped_runs(v, "G_I_"@, 1), 1),
        ),
        has_shape(v, "G_Uf_"@, 2) ==> spec_literal::<T>(v) == spec_oracle_literal::<T>(
            crate::prefabs::spec_numbers(crate::prefabs::shaped_runs(v, "G_Uf_"@, 2), 2),
        ),
        has_shape(v, "G_QFTI_"@, 1) ==> spec_literal::<T>(v) == spec_fourier_literal::<T>(
            crate::prefabs::spec_numbers(crate::prefabs::shaped_runs(v, "G_QFTI_"@, 1), 1),
        ),
{
    reveal_strlit("G_H");
    reveal_strlit("G_CNOT");
    reveal_strlit("G_R_");
    reveal_strlit("G_I_");
    reveal_strlit("G_Uf_");
    reveal_strlit("G_QFTI_");
    crate::prefabs::lemma_gate_prefixes();
    if has_shape(v, "G_R_"@, 1) {
        lemma_third_character(v, "G_R_"@);
        crate::prefabs::lemma_numbers_of_shaped_name(v, "G_R_"@, 1);
    }
    if has_shape(v, "G_I_"@, 1) {
        lemma_third_character(v, "G_I_"@);
        crate::prefabs::lemma_numbers_of_shaped_name(v, "G_I_"@, 1);
    }
    if has_shape(v, "G_Uf_"@, 2) {
        lemma_third_character(v, "G_Uf_"@);
        crate::prefabs::lemma_numbers_of_shaped_name(v, "G_Uf_"@, 2);
    }
    if has_shape(v, "G_QFTI_"@, 1) {
        lemma_third_character(v, "G_QFTI_"@);
        crate::prefabs::lemma_numbers_of_shaped_name(v, "G_QFTI_"@, 1);
    }
}

/// `INVERSE` of `INVERSE` of a Hermitian matrix is the matrix itself.
pub proof fn lemma_inverse_twice<T: Scalar>(name: Seq<char>, h: Seq<Seq<T>>)
    requires
        crate::complex::is_ring::<T>(),
        is_rect(h),
        spec_is_hermitian(h),
    ensures
        spec_inverse(seq![(name, ValueView::Matrix(h))]) matches Ok(ValueView::Matrix(once))
            && spec_inverse(seq![(name, ValueView::Matrix(once))]) == Ok::<ValueView<T>, ErrorView>(
            ValueView::Matrix(h),
        ),
{
    crate::algebra::lemma_adjoint_of_hermitian(h);
}

} // verus!
