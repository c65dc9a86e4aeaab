//! What the evaluation of a program can give, for every scalar type.
//!
//! For a scalar type with exact arithmetic the executor states the one
//! result of a run. For every other type a result of an operation of the
//! type is known only as far as the type's own contracts say. This module
//! states of every step of a run from which operations its result comes:
//! `node_gives(node, memory, r)` holds if `r` is a result of the
//! evaluation of `node` in `memory`. What does not depend on the
//! arithmetic (the names, the shapes, the errors for misuse) is stated
//! exactly.

use crate::complex::{is_polar, Scalar};
use crate::executor::{
    after_draw, failed, invalid_literal, measure_error, next_draw, pure_step, spec_assign,
    spec_select, syntax, two_matrices, ErrorView, Failure, MemoryView, Named, Step, ValueView,
};
use crate::gates::{
    cnot_target, fourier_missing_at, is_fourier, is_hadamard, is_permutation, is_phase_shift,
    oracle_qubits, oracle_target, value_bits,
};
use crate::lexer::has_prefix;
use crate::matrix::{
    cols, is_adjoint_of, is_hermitian_result, is_identity_of, is_product_of, is_tensor_of,
    is_unit_column, rows,
};
use crate::parser::AstView;
use crate::prefabs::{has_shape, spec_parse_decimal, spec_prefab_numbers};
use crate::quantum_sim::{is_measurement, is_partial_measurement, MeasureError};
use vstd::arithmetic::power2::pow2;
use vstd::prelude::*;

verus! {

/// `r` is a matrix of which `holds` is true, or, where the scalar type can
/// lack an entry of the matrix, the error `NotImplemented`.
pub open spec fn gate_gives<T>(
    r: Result<ValueView<T>, ErrorView>,
    holds: spec_fn(Seq<Seq<T>>) -> bool,
    can_lack: bool,
) -> bool {
    match r {
        Ok(ValueView::Matrix(m)) => holds(m),
        Ok(_) => false,
        Err(e) => can_lack && e == ErrorView::NotImplemented,
    }
}

/// `r` is a result of the phase shift `G_R_k` for the numbers in its name.
pub open spec fn phase_gives<T: Scalar>(
    numbers: Option<Seq<nat>>,
    r: Result<ValueView<T>, ErrorView>,
) -> bool {
    match numbers {
        Some(ns) => if ns.len() != 1 || ns[0] == 0 || ns[0] > u64::MAX / 2 {
            r == Err::<ValueView<T>, ErrorView>(invalid_literal())
        } else {
            gate_gives(
                r,
                |m: Seq<Seq<T>>| is_phase_shift(m, ns[0] as u64),
                is_polar::<T>(1, 1, (2 * ns[0]) as u64, None),
            )
        },
        None => r == Err::<ValueView<T>, ErrorView>(invalid_literal()),
    }
}

/// `r` is a result of the identity `G_I_d` for the numbers in its name.
pub open spec fn identity_gives<T: Scalar>(
    numbers: Option<Seq<nat>>,
    r: Result<ValueView<T>, ErrorView>,
) -> bool {
    match numbers {
        Some(ns) => if ns.len() != 1 || ns[0] == 0 {
            r == Err::<ValueView<T>, ErrorView>(invalid_literal())
        } else {
            gate_gives(r, |m: Seq<Seq<T>>| is_identity_of(ns[0], m), false)
        },
        None => r == Err::<ValueView<T>, ErrorView>(invalid_literal()),
    }
}

/// `r` is a result of the modular exponentiation `G_Uf_a_n` for the numbers
/// in its name.
pub open spec fn oracle_gives<T: Scalar>(
    numbers: Option<Seq<nat>>,
    r: Result<ValueView<T>, ErrorView>,
) -> bool {
    match numbers {
        Some(ns) => if ns.len() != 2 || ns[0] > u32::MAX || ns[1] == 0 || ns[1] > u32::MAX || pow2(
            oracle_qubits(ns[1]),
        ) > usize::MAX {
            r == Err::<ValueView<T>, ErrorView>(invalid_literal())
        } else {
            gate_gives(
                r,
                |m: Seq<Seq<T>>|
                    is_permutation(
                        m,
                        pow2(oracle_qubits(ns[1])),
                        |j: int| oracle_target(ns[0], ns[1], pow2(value_bits(ns[1])), j),
                    ),
                false,
            )
        },
        None => r == Err::<ValueView<T>, ErrorView>(invalid_literal()),
    }
}

/// `m` is an adjoint of a Fourier transform of dimension `d`.
pub open spec fn is_inverse_fourier<T: Scalar>(m: Seq<Seq<T>>, d: nat) -> bool {
    exists|f: Seq<Seq<T>>| #[trigger] is_fourier(f, d) && is_adjoint_of(f, m)
}

/// The scalar type can lack an entry of the Fourier transform of dimension `d`.
pub open spec fn fourier_can_lack<T: Scalar>(d: nat) -> bool {
    exists|i: int, j: int| #[trigger] fourier_missing_at::<T>(d, i, j)
}

/// `r` is a result of the inverse Fourier transform `G_QFTI_k` for the
/// numbers in its name.
pub open spec fn fourier_gives<T: Scalar>(
    numbers: Option<Seq<nat>>,
    r: Result<ValueView<T>, ErrorView>,
) -> bool {
    match numbers {
        Some(ns) => if ns.len() != 1 || pow2(ns[0]) > usize::MAX {
            r == Err::<ValueView<T>, ErrorView>(invalid_literal())
        } else {
            gate_gives(
                r,
                |m: Seq<Seq<T>>| is_inverse_fourier(m, pow2(ns[0])),
                fourier_can_lack::<T>(pow2(ns[0])),
            )
        },
        None => r == Err::<ValueView<T>, ErrorView>(invalid_literal()),
    }
}

/// `r` is a result of resolving a literal: a gate for a gate name, the
/// number for a number. A name that begins with `G_` and is no gate name is
/// not implemented.
pub open spec fn literal_gives<T: Scalar>(v: Seq<char>, r: Result<ValueView<T>, ErrorView>) -> bool {
    if v == "G_H"@ {
        gate_gives(
            r,
            |m: Seq<Seq<T>>| is_hadamard(m),
            is_polar::<T>(2, 0, 1, None) || is_polar::<T>(2, 1, 2, None),
        )
    } else if v == "G_CNOT"@ {
        gate_gives(r, |m: Seq<Seq<T>>| is_permutation(m, 4, |j: int| cnot_target(j)), false)
    } else if has_shape(v, "G_R_"@, 1) {
        phase_gives(spec_prefab_numbers(v, 1), r)
    } else if has_shape(v, "G_I_"@, 1) {
        identity_gives(spec_prefab_numbers(v, 1), r)
    } else if has_shape(v, "G_Uf_"@, 2) {
        oracle_gives(spec_prefab_numbers(v, 2), r)
    } else if has_shape(v, "G_QFTI_"@, 1) {
        fourier_gives(spec_prefab_numbers(v, 1), r)
    } else if has_prefix(v, "G_"@) {
        r == Err::<ValueView<T>, ErrorView>(ErrorView::NotImplemented)
    } else {
        r == match spec_parse_decimal(v, i32::MAX as nat) {
            Some(n) => Ok::<ValueView<T>, ErrorView>(ValueView::Int(n as i32)),
            None => Err(invalid_literal()),
        }
    }
}

/// `r` is a result of `INITIALIZE n`: a state of `n` qubits that are all
/// zero.
pub open spec fn initialize_gives<T: Scalar>(
    params: Seq<Named<T>>,
    r: Result<ValueView<T>, ErrorView>,
) -> bool {
    if params.len() != 1 {
        r == Err::<ValueView<T>, ErrorView>(syntax("Invalid number of parameters"@))
    } else {
        match params[0].1 {
            ValueView::Int(n) => if n < 0 || pow2(n as nat) > usize::MAX {
                r == Err::<ValueView<T>, ErrorView>(syntax("Invalid size for INITIALIZE"@))
            } else {
                gate_gives(r, |m: Seq<Seq<T>>| is_unit_column(pow2(n as nat), m), false)
            },
            _ => r == Err::<ValueView<T>, ErrorView>(syntax("Invalid matrix"@)),
        }
    }
}

/// `r` is a result of `INVERSE m`: an adjoint of `m` if the test whether
/// `m` is Hermitian gave that it is, and an error if it gave that it is not.
pub open spec fn inverse_gives<T: Scalar>(params: Seq<Named<T>>, r: Result<ValueView<T>, ErrorView>)
    -> bool {
    if params.len() != 1 {
        r == Err::<ValueView<T>, ErrorView>(syntax("Invalid number of parameters"@))
    } else {
        match params[0].1 {
            ValueView::Matrix(m) => match r {
                Ok(ValueView::Matrix(adj)) => is_hermitian_result(m, true) && is_adjoint_of(m, adj),
                Ok(_) => false,
                Err(e) => is_hermitian_result(m, false) && e == syntax(
                    "Input invalid for INVERSE, should be a hermetian matrix"@,
                ),
            },
            _ => r == Err::<ValueView<T>, ErrorView>(syntax("Invalid matrix"@)),
        }
    }
}

/// `r` is a result of `TENSOR a b`: a Kronecker product.
pub open spec fn tensor_gives<T: Scalar>(params: Seq<Named<T>>, r: Result<ValueView<T>, ErrorView>)
    -> bool {
    match two_matrices(params) {
        Err(e) => r == Err::<ValueView<T>, ErrorView>(e),
        Ok((a, b)) => if rows(a) * rows(b) > usize::MAX || cols(a) * cols(b) > usize::MAX {
            r == Err::<ValueView<T>, ErrorView>(syntax("Matrix too large for TENSOR"@))
        } else {
            gate_gives(r, |m: Seq<Seq<T>>| is_tensor_of(a, b, m), false)
        },
    }
}

/// `r` is a result of `CONCAT a b`: a product of two square matrices of
/// one size.
pub open spec fn concat_gives<T: Scalar>(params: Seq<Named<T>>, r: Result<ValueView<T>, ErrorView>)
    -> bool {
    match two_matrices(params) {
        Err(e) => r == Err::<ValueView<T>, ErrorView>(e),
        Ok((a, b)) => if rows(a) != rows(b) || cols(a) != cols(b) || cols(a) != rows(b) {
            r == Err::<ValueView<T>, ErrorView>(syntax("Matrix sizes should be equal to CONCAT"@))
        } else {
            gate_gives(r, |m: Seq<Seq<T>>| is_product_of(a, b, m), false)
        },
    }
}

/// `r` is a result of `APPLY u v`: a product of a square matrix and a
/// state that fits it.
pub open spec fn apply_gives<T: Scalar>(params: Seq<Named<T>>, r: Result<ValueView<T>, ErrorView>)
    -> bool {
    match two_matrices(params) {
        Err(e) => r == Err::<ValueView<T>, ErrorView>(e),
        Ok((u, v)) => if cols(v) != 1 || rows(v) != cols(u) || rows(u) != cols(u) {
            r == Err::<ValueView<T>, ErrorView>(
                syntax(
                    "Input invalid for APPLY, first arg should be a square matrix & the second arg should be vector with equal columns"@,
                ),
            )
        } else {
            gate_gives(r, |m: Seq<Seq<T>>| is_product_of(u, v, m), false)
        },
    }
}

/// `func` is an operation that gives a value and leaves the memory as it is.
pub open spec fn is_value_op(func: Seq<char>) -> bool {
    func == "INITIALIZE"@ || func == "INVERSE"@ || func == "TENSOR"@ || func == "CONCAT"@ || func
        == "APPLY"@ || func == "SELECT"@
}

/// `value` is a result of the operation `func`, which gives a value, on
/// evaluated operands.
pub open spec fn value_gives<T: Scalar>(
    func: Seq<char>,
    params: Seq<Named<T>>,
    value: Result<ValueView<T>, ErrorView>,
) -> bool {
    if func == "INITIALIZE"@ {
        initialize_gives(params, value)
    } else if func == "INVERSE"@ {
        inverse_gives(params, value)
    } else if func == "TENSOR"@ {
        tensor_gives(params, value)
    } else if func == "CONCAT"@ {
        concat_gives(params, value)
    } else if func == "APPLY"@ {
        apply_gives(params, value)
    } else {
        func == "SELECT"@ && value == spec_select(params)
    }
}

/// The step of a measurement of a whole state: the measurement takes its
/// draw and gives the state with the outcome.
pub open spec fn measured_step<T>(
    func: Seq<char>,
    m: Seq<Seq<T>>,
    memory: MemoryView<T>,
    outcome: Result<Seq<char>, MeasureError>,
) -> Result<Step<T>, Failure<T>> {
    match outcome {
        Ok(bits) => Ok(
            Step { memory: after_draw(memory), value: Some((func, ValueView::Measurement(m, bits))) },
        ),
        Err(e) => Err(failed(memory, measure_error(e))),
    }
}

/// The step of a measurement of the selected qubits of the state bound to
/// `key`: the measurement takes its draw, the collapsed state replaces the
/// state on the heap, and the step gives the collapsed state with the
/// outcome.
pub open spec fn collapsed_step<T>(
    func: Seq<char>,
    key: Seq<char>,
    memory: MemoryView<T>,
    outcome: Result<(Seq<Seq<T>>, Seq<char>), MeasureError>,
) -> Result<Step<T>, Failure<T>> {
    match outcome {
        Ok((state, bits)) => Ok(
            Step {
                memory: MemoryView {
                    heap: memory.heap.insert(key, ValueView::Matrix(state)),
                    ..after_draw(memory)
                },
                value: Some((func, ValueView::Measurement(state, bits))),
            },
        ),
        Err(e) => Err(failed(memory, measure_error(e))),
    }
}

/// `r` is a result of measuring the whole state `m` with the next draw.
pub open spec fn whole_measure_gives<T: Scalar>(
    func: Seq<char>,
    m: Seq<Seq<T>>,
    memory: MemoryView<T>,
    r: Result<Step<T>, Failure<T>>,
) -> bool {
    exists|w: Seq<u64>, outcome: Result<Seq<char>, MeasureError>| #[trigger]
        is_measurement(m, next_draw(memory), w, outcome) && r == measured_step(
            func,
            m,
            memory,
            outcome,
        )
}

/// `r` is a result of measuring the qubits `from..to` of the state `m`,
/// which is bound to `key`, with the next draw.
pub open spec fn partial_measure_gives<T: Scalar>(
    func: Seq<char>,
    key: Seq<char>,
    m: Seq<Seq<T>>,
    from: int,
    to: int,
    memory: MemoryView<T>,
    r: Result<Step<T>, Failure<T>>,
) -> bool {
    exists|part: Seq<Seq<T>>, w: Seq<u64>, outcome: Result<(Seq<Seq<T>>, Seq<char>), MeasureError>|
     #[trigger] is_partial_measurement(m, from, to, next_draw(memory), part, w, outcome) && r
        == collapsed_step(func, key, memory, outcome)
}

/// `r` is a result of `MEASURE s`: of measuring a state, or the selected
/// qubits of the state that a selection names.
pub open spec fn measure_gives<T: Scalar>(
    func: Seq<char>,
    params: Seq<Named<T>>,
    memory: MemoryView<T>,
    r: Result<Step<T>, Failure<T>>,
) -> bool {
    if params.len() != 1 {
        r == Err::<Step<T>, Failure<T>>(failed(memory, syntax("Invalid number of parameters"@)))
    } else {
        match params[0].1 {
            ValueView::Matrix(m) => whole_measure_gives(func, m, memory, r),
            ValueView::Selection(key, region, from, to) => if !memory.heap.contains_key(key) {
                r == Err::<Step<T>, Failure<T>>(failed(memory, syntax("Variable not found"@)))
            } else {
                match memory.heap[key] {
                    ValueView::Matrix(m) => partial_measure_gives(
                        func,
                        key,
                        m,
                        from as int,
                        to as int,
                        memory,
                        r,
                    ),
                    _ => r == Err::<Step<T>, Failure<T>>(failed(memory, syntax("Invalid matrix"@))),
                }
            },
            _ => r == Err::<Step<T>, Failure<T>>(failed(memory, syntax("Invalid matrix"@))),
        }
    }
}

/// `r` is the step of an operation that gave `value` and left the memory
/// as it was.
pub open spec fn is_pure_step<T>(
    func: Seq<char>,
    memory: MemoryView<T>,
    value: Result<ValueView<T>, ErrorView>,
    r: Result<Step<T>, Failure<T>>,
) -> bool {
    r == pure_step(func, value, memory)
}

/// `r` is a result of the built-in operation `func` on evaluated operands.
/// A name that is no operation is not implemented.
pub open spec fn builtin_gives<T: Scalar>(
    func: Seq<char>,
    params: Seq<Named<T>>,
    memory: MemoryView<T>,
    r: Result<Step<T>, Failure<T>>,
) -> bool {
    if is_value_op(func) {
        exists|value: Result<ValueView<T>, ErrorView>|
            value_gives(func, params, value) && #[trigger] is_pure_step(func, memory, value, r)
    } else if func == "MEASURE"@ {
        measure_gives(func, params, memory, r)
    } else {
        r == Err::<Step<T>, Failure<T>>(failed(memory, ErrorView::NotImplemented))
    }
}

/// What an assignment makes of a result of its body.
pub open spec fn assigned<T>(
    name: Seq<char>,
    region: crate::parser::MemoryLocation,
    body: Result<Step<T>, Failure<T>>,
) -> Result<Step<T>, Failure<T>> {
    match body {
        Ok(step) => spec_assign(name, region, step),
        Err(e) => Err(e),
    }
}

/// `r` is what an assignment makes of the result `body` of its body.
pub open spec fn is_assigned<T>(
    name: Seq<char>,
    region: crate::parser::MemoryLocation,
    body: Result<Step<T>, Failure<T>>,
    r: Result<Step<T>, Failure<T>>,
) -> bool {
    r == assigned(name, region, body)
}

/// The evaluated operands of an application.
pub type Operands<T> = Result<(MemoryView<T>, Seq<Named<T>>), Failure<T>>;

/// The operands after one more operand: its value, if it gave one, goes
/// behind the others; the first error ends the evaluation.
pub open spec fn with_operand<T>(before: Operands<T>, last: Result<Step<T>, Failure<T>>) -> Operands<
    T,
> {
    match before {
        Err(e) => Err(e),
        Ok((memory, params)) => match last {
            Err(e) => Err(e),
            Ok(step) => Ok(
                (
                    step.memory,
                    match step.value {
                        Some(p) => params.push(p),
                        None => params,
                    },
                ),
            ),
        },
    }
}

/// `r` is the operands `before` with the result `last` of one more operand.
pub open spec fn is_with_operand<T>(
    before: Operands<T>,
    last: Result<Step<T>, Failure<T>>,
    r: Operands<T>,
) -> bool {
    r == with_operand(before, last)
}

/// `r` is a result of the operation `func` on the evaluated operands; the
/// error of an operand is the error of the application.
pub open spec fn application_gives<T: Scalar>(
    func: Seq<char>,
    operands: Operands<T>,
    r: Result<Step<T>, Failure<T>>,
) -> bool {
    match operands {
        Ok((after, params)) => builtin_gives(func, params, after, r),
        Err(e) => r == Err::<Step<T>, Failure<T>>(e),
    }
}

/// `r` is a result of the evaluation of a node.
///
/// A literal gives a value under the name `_`. An identifier gives the
/// value that it is bound to on the heap, under its own name. An assignment
/// binds a result of its body. An application applies its operation to
/// results of its operands, evaluated from left to right.
pub open spec fn node_gives<T: Scalar>(
    node: AstView,
    memory: MemoryView<T>,
    r: Result<Step<T>, Failure<T>>,
) -> bool
    decreases node, 0nat,
{
    match node {
        AstView::Literal(v) => exists|value: Result<ValueView<T>, ErrorView>|
            literal_gives(v, value) && #[trigger] is_pure_step("_"@, memory, value, r),
        AstView::Identifier(name) => r == if memory.heap.contains_key(name) {
            Ok::<Step<T>, Failure<T>>(Step { memory, value: Some((name, memory.heap[name])) })
        } else {
            Err(failed(memory, syntax("Variable not found"@)))
        },
        AstView::VariableAssignment(name, region, body) => exists|inner: Result<Step<T>, Failure<T>>|
            node_gives(*body, memory, inner) && #[trigger] is_assigned(name, region, inner, r),
        AstView::FunctionApplication(func, args) => exists|operands: Operands<T>|
            args_give(args, args.len(), memory, operands) && #[trigger] application_gives(
                func,
                operands,
                r,
            ),
    }
}

/// `r` is a result of the evaluation of the first `n` operands, from left
/// to right.
pub open spec fn args_give<T: Scalar>(
    args: Seq<AstView>,
    n: nat,
    memory: MemoryView<T>,
    r: Operands<T>,
) -> bool
    decreases args, n,
{
    if n == 0 || n > args.len() {
        r == Ok::<(MemoryView<T>, Seq<Named<T>>), Failure<T>>((memory, Seq::empty()))
    } else {
        exists|before: Operands<T>, last: Result<Step<T>, Failure<T>>|
            args_give(args, (n - 1) as nat, memory, before) && (before matches Ok((at, params))
                ==> node_gives(args[n - 1], at, last)) && #[trigger] is_with_operand(
                before,
                last,
                r,
            )
    }
}

/// The memory after one more statement; the first error ends the run.
pub open spec fn with_statement<T>(
    before: Result<MemoryView<T>, Failure<T>>,
    last: Result<Step<T>, Failure<T>>,
) -> Result<MemoryView<T>, Failure<T>> {
    match before {
        Err(e) => Err(e),
        Ok(memory) => match last {
            Err(e) => Err(e),
            Ok(step) => Ok(step.memory),
        },
    }
}

/// `r` is the memory `before` after the result `last` of one more statement.
pub open spec fn is_with_statement<T>(
    before: Result<MemoryView<T>, Failure<T>>,
    last: Result<Step<T>, Failure<T>>,
    r: Result<MemoryView<T>, Failure<T>>,
) -> bool {
    r == with_statement(before, last)
}

/// `r` is a memory after the first `n` statements of a program.
pub open spec fn statements_give<T: Scalar>(
    nodes: Seq<AstView>,
    n: nat,
    memory: MemoryView<T>,
    r: Result<MemoryView<T>, Failure<T>>,
) -> bool
    decreases n,
{
    if n == 0 || n > nodes.len() {
        r == Ok::<MemoryView<T>, Failure<T>>(memory)
    } else {
        exists|before: Result<MemoryView<T>, Failure<T>>, last: Result<Step<T>, Failure<T>>|
            statements_give(nodes, (n - 1) as nat, memory, before) && (before matches Ok(at)
                ==> node_gives(nodes[n - 1], at, last)) && #[trigger] is_with_statement(
                before,
                last,
                r,
            )
    }
}

/// The measurement log of a memory after a run.
pub open spec fn log_of<T>(memory: Result<MemoryView<T>, Failure<T>>) -> Result<
    Map<Seq<char>, (Seq<Seq<T>>, Seq<char>)>,
    ErrorView,
> {
    match memory {
        Ok(m) => Ok(m.measurements),
        Err(failure) => Err(failure.error),
    }
}

/// `r` is the measurement log of the memory `memory` after a run.
pub open spec fn is_log_of<T>(
    memory: Result<MemoryView<T>, Failure<T>>,
    r: Result<Map<Seq<char>, (Seq<Seq<T>>, Seq<char>)>, ErrorView>,
) -> bool {
    r == log_of(memory)
}

/// `r` is a measurement log of a run of a program with the given draws.
pub open spec fn execute_gives<T: Scalar>(
    nodes: Seq<AstView>,
    draws: Seq<u128>,
    r: Result<Map<Seq<char>, (Seq<Seq<T>>, Seq<char>)>, ErrorView>,
) -> bool {
    exists|memory: Result<MemoryView<T>, Failure<T>>|
        statements_give(
            nodes,
            nodes.len(),
            crate::executor::initial_memory::<T>(draws),
            memory,
        ) && #[trigger] is_log_of(memory, r)
}

/// The memory that a step left, whether it gave a value or failed.
pub open spec fn memory_after<T>(r: Result<Step<T>, Failure<T>>) -> MemoryView<T> {
    match r {
        Ok(step) => step.memory,
        Err(failure) => failure.memory,
    }
}

/// Every node is a literal or an identifier.
pub open spec fn all_names(args: Seq<AstView>) -> bool {
    forall|i: int| 0 <= i < args.len() ==> (#[trigger] args[i] is Literal) || args[i] is Identifier
}

/// The evaluation of a literal or an identifier leaves the memory as it
/// was, whether it gives a value or fails.
pub proof fn lemma_name_leaves_memory<T: Scalar>(
    node: AstView,
    memory: MemoryView<T>,
    r: Result<Step<T>, Failure<T>>,
)
    requires
        node is Literal || node is Identifier,
        node_gives(node, memory, r),
    ensures
        memory_after(r) == memory,
{
    match node {
        AstView::Literal(v) => {
            let value = choose|value: Result<ValueView<T>, ErrorView>|
                literal_gives(v, value) && #[trigger] is_pure_step("_"@, memory, value, r);
        },
        _ => {},
    }
}

/// The evaluation of literals and identifiers as operands leaves the
/// memory as it was, whether it gives their values or fails.
pub proof fn lemma_names_leave_memory<T: Scalar>(
    args: Seq<AstView>,
    n: nat,
    memory: MemoryView<T>,
    r: Operands<T>,
)
    requires
        all_names(args),
        args_give(args, n, memory, r),
    ensures
        match r {
            Ok((after, params)) => after == memory,
            Err(failure) => failure.memory == memory,
        },
    decreases n,
{
    if !(n == 0 || n > args.len()) {
        let (before, last) = choose|before: Operands<T>, last: Result<Step<T>, Failure<T>>|
            args_give(args, (n - 1) as nat, memory, before) && (before matches Ok((at, params))
                ==> node_gives(args[n - 1], at, last)) && #[trigger] is_with_operand(
                before,
                last,
                r,
            );
        lemma_names_leave_memory(args, (n - 1) as nat, memory, before);
        match before {
            Ok((at, params)) => {
                lemma_name_leaves_memory(args[n - 1], at, last);
            },
            Err(failure) => {},
        }
    }
}

/// A built-in operation that fails leaves the memory as it was.
pub proof fn lemma_failed_operation_leaves_memory<T: Scalar>(
    func: Seq<char>,
    params: Seq<Named<T>>,
    memory: MemoryView<T>,
    r: Result<Step<T>, Failure<T>>,
)
    requires
        builtin_gives(func, params, memory, r),
        r is Err,
    ensures
        memory_after(r) == memory,
{
    if is_value_op(func) {
        let value = choose|value: Result<ValueView<T>, ErrorView>|
            value_gives(func, params, value) && #[trigger] is_pure_step(func, memory, value, r);
    } else if func == "MEASURE"@ {
        if params.len() == 1 {
            match params[0].1 {
                ValueView::Matrix(m) => {
                    let (w, outcome) = choose|w: Seq<u64>, outcome: Result<Seq<char>, MeasureError>|
                     #[trigger]
                        is_measurement(m, next_draw(memory), w, outcome) && r == measured_step(
                            func,
                            m,
                            memory,
                            outcome,
                        );
                },
                ValueView::Selection(key, region, from, to) => {
                    if memory.heap.contains_key(key) {
                        match memory.heap[key] {
                            ValueView::Matrix(m) => {
                                let (part, w, outcome) = choose|
                                    part: Seq<Seq<T>>,
                                    w: Seq<u64>,
                                    outcome: Result<(Seq<Seq<T>>, Seq<char>), MeasureError>,
                                |
                                 #[trigger]
                                    is_partial_measurement(
                                        m,
                                        from as int,
                                        to as int,
                                        next_draw(memory),
                                        part,
                                        w,
                                        outcome,
                                    ) && r == collapsed_step(func, key, memory, outcome);
                            },
                            _ => {},
                        }
                    }
                },
                _ => {},
            }
        }
    }
}

/// An operation on literals and identifiers that fails leaves the memory
/// as it was: no name is bound or rebound, nothing is added to the
/// measurement log, and no draw is taken.
pub proof fn lemma_failed_application_leaves_memory<T: Scalar>(
    func: Seq<char>,
    args: Seq<AstView>,
    memory: MemoryView<T>,
    r: Result<Step<T>, Failure<T>>,
)
    requires
        all_names(args),
        node_gives(AstView::FunctionApplication(func, args), memory, r),
        r is Err,
    ensures
        memory_after(r) == memory,
{
    let operands = choose|operands: Operands<T>|
        args_give(args, args.len(), memory, operands) && #[trigger] application_gives(
            func,
            operands,
            r,
        );
    lemma_names_leave_memory(args, args.len(), memory, operands);
    match operands {
        Ok((after, params)) => {
            lemma_failed_operation_leaves_memory(func, params, after, r);
        },
        Err(failure) => {},
    }
}

/// A statement of the language that fails leaves the memory as it was. A
/// statement binds a name to an operation on literals and identifiers;
/// a measurement is bound in the measurement log.
pub proof fn lemma_failed_statement_leaves_memory<T: Scalar>(
    name: Seq<char>,
    region: crate::parser::MemoryLocation,
    func: Seq<char>,
    args: Seq<AstView>,
    memory: MemoryView<T>,
    r: Result<Step<T>, Failure<T>>,
)
    requires
        all_names(args),
        func == "MEASURE"@ ==> region == crate::parser::MemoryLocation::Measurement,
        node_gives(
            AstView::VariableAssignment(
                name,
                region,
                Box::new(AstView::FunctionApplication(func, args)),
            ),
            memory,
            r,
        ),
        r is Err,
    ensures
        memory_after(r) == memory,
{
    let body = AstView::FunctionApplication(func, args);
    let inner = choose|inner: Result<Step<T>, Failure<T>>|
        node_gives(body, memory, inner) && #[trigger] is_assigned(name, region, inner, r);
    match inner {
        Err(failure) => {
            lemma_failed_application_leaves_memory(func, args, memory, inner);
        },
        Ok(step) => {
            let operands = choose|operands: Operands<T>|
                args_give(args, args.len(), memory, operands) && #[trigger] application_gives(
                    func,
                    operands,
                    inner,
                );
            lemma_names_leave_memory(args, args.len(), memory, operands);
            if is_value_op(func) {
                let after = operands->Ok_0.0;
                let params = operands->Ok_0.1;
                let value = choose|value: Result<ValueView<T>, ErrorView>|
                    value_gives(func, params, value) && #[trigger] is_pure_step(
                        func,
                        after,
                        value,
                        inner,
                    );
            } else {
                lemma_measure_gives_a_measurement(func, operands->Ok_0.1, operands->Ok_0.0, inner);
            }
        },
    }
}

/// A measurement that succeeds gives a measurement.
proof fn lemma_measure_gives_a_measurement<T: Scalar>(
    func: Seq<char>,
    params: Seq<Named<T>>,
    memory: MemoryView<T>,
    r: Result<Step<T>, Failure<T>>,
)
    requires
        measure_gives(func, params, memory, r),
        r is Ok,
    ensures
        r->Ok_0.value matches Some((name, ValueView::Measurement(m, bits))),
{
    if params.len() == 1 {
        match params[0].1 {
            ValueView::Matrix(m) => {
                let (w, outcome) = choose|w: Seq<u64>, outcome: Result<Seq<char>, MeasureError>|
                 #[trigger]
                    is_measurement(m, next_draw(memory), w, outcome) && r == measured_step(
                        func,
                        m,
                        memory,
                        outcome,
                    );
            },
            ValueView::Selection(key, region, from, to) => {
                if memory.heap.contains_key(key) {
                    match memory.heap[key] {
                        ValueView::Matrix(m) => {
                            let (part, w, outcome) = choose|
                                part: Seq<Seq<T>>,
                                w: Seq<u64>,
                                outcome: Result<(Seq<Seq<T>>, Seq<char>), MeasureError>,
                            |
                             #[trigger]
                                is_partial_measurement(
                                    m,
                                    from as int,
                                    to as int,
                                    next_draw(memory),
                                    part,
                                    w,
                                    outcome,
                                ) && r == collapsed_step(func, key, memory, outcome);
                        },
                        _ => {},
                    }
                }
            },
            _ => {},
        }
    }
}

/// Once the evaluation of the operands has failed, it stays failed.
pub proof fn lemma_args_stay_failed<T: Scalar>(
    args: Seq<AstView>,
    k: nat,
    n: nat,
    memory: MemoryView<T>,
    e: Failure<T>,
)
    requires
        0 < k <= n <= args.len(),
        args_give(args, k, memory, Err::<(MemoryView<T>, Seq<Named<T>>), Failure<T>>(e)),
    ensures
        args_give(args, n, memory, Err::<(MemoryView<T>, Seq<Named<T>>), Failure<T>>(e)),
    decreases n - k,
{
    if k < n {
        lemma_args_stay_failed(args, k, (n - 1) as nat, memory, e);
        let before = Err::<(MemoryView<T>, Seq<Named<T>>), Failure<T>>(e);
        let last = Err::<Step<T>, Failure<T>>(e);
        assert(is_with_operand(before, last, before));
    }
}

/// Once a statement has failed, the run stays failed.
pub proof fn lemma_statements_stay_failed<T: Scalar>(
    nodes: Seq<AstView>,
    k: nat,
    n: nat,
    memory: MemoryView<T>,
    e: Failure<T>,
)
    requires
        0 < k <= n <= nodes.len(),
        statements_give(nodes, k, memory, Err::<MemoryView<T>, Failure<T>>(e)),
    ensures
        statements_give(nodes, n, memory, Err::<MemoryView<T>, Failure<T>>(e)),
    decreases n - k,
{
    if k < n {
        lemma_statements_stay_failed(nodes, k, (n - 1) as nat, memory, e);
        let before = Err::<MemoryView<T>, Failure<T>>(e);
        let last = Err::<Step<T>, Failure<T>>(e);
        assert(is_with_statement(before, last, before));
    }
}

} // verus!
