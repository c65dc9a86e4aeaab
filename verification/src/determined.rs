//! For a scalar type with exact arithmetic the evaluation of a program has
//! one result: whatever [`crate::outcomes`] allows is what
//! [`crate::executor`] computes in the specification.

use crate::complex::Scalar;
use crate::executor::{
    spec_apply, spec_args, spec_builtin, spec_concat, spec_execute, spec_fourier_literal,
    spec_identity_literal, spec_initialize, spec_inverse, spec_literal, spec_measure_op,
    spec_node, spec_oracle_literal, spec_phase_literal, spec_statements, spec_tensor_op,
    ErrorView, Failure, MemoryView, Named, Step, ValueView,
};
use crate::gates::{
    fourier_entry, fourier_missing_at, hadamard_of, is_fourier, is_hadamard, is_permutation,
    is_phase_shift, permutation, phase_shift_of, spec_hadamard, spec_phase_shift,
    spec_quantum_fourier,
};
use crate::matrix::{
    cols, is_adjoint_of, is_identity_of, is_tensor_of,
    is_unit_column, rows, spec_identity, spec_tensor, spec_unit_column,
};
use crate::outcomes::{
    application_gives, args_give, builtin_gives, execute_gives, fourier_gives, identity_gives,
    is_assigned, is_inverse_fourier, is_log_of, is_pure_step, is_with_operand, is_with_statement,
    literal_gives, measure_gives, node_gives, oracle_gives, phase_gives, statements_give,
    value_gives, Operands,
};
use crate::parser::AstView;
use crate::quantum_sim::{
    is_measurement, is_partial_measurement, spec_measure, spec_measure_partial, spec_qbit_length,
    MeasureError,
};
use vstd::arithmetic::power2::pow2;
use vstd::prelude::*;

verus! {

/// For an exact scalar type a matrix whose entries are results of the
/// numbers of the Hadamard gate is the Hadamard gate.
pub proof fn lemma_hadamard_determined<T: Scalar>(m: Seq<Seq<T>>)
    requires
        T::exact(),
        is_hadamard(m),
    ensures
        spec_hadamard::<T>() == Some(m),
{
    let plus = m[0][0];
    let minus = m[1][1];
    assert(T::spec_polar(2, 0, 1) == Some(plus));
    assert(T::spec_polar(2, 1, 2) == Some(minus));
    assert(T::spec_polar(2, 0, 1) == Some(m[0][1]));
    assert(T::spec_polar(2, 0, 1) == Some(m[1][0]));
    assert(m =~~= hadamard_of(plus, minus));
}

/// For an exact scalar type a matrix of results of one and zero is the
/// permutation matrix of its targets.
pub proof fn lemma_permutation_determined<T: Scalar>(
    m: Seq<Seq<T>>,
    n: nat,
    target: spec_fn(int) -> int,
)
    requires
        T::exact(),
        is_permutation(m, n, target),
    ensures
        m == permutation::<T>(n, target),
{
    assert(m =~~= permutation::<T>(n, target));
}

/// For an exact scalar type a matrix whose entries are results of the
/// numbers of a phase shift is that phase shift.
pub proof fn lemma_phase_shift_determined<T: Scalar>(m: Seq<Seq<T>>, k: u64)
    requires
        T::exact(),
        0 < k,
        2 * k <= u64::MAX,
        is_phase_shift(m, k),
    ensures
        spec_phase_shift::<T>(k) == Some(m),
{
    let phase = m[1][1];
    assert(T::spec_polar(1, 1, (2 * k) as u64) == Some(phase));
    assert(m[0][0] == T::spec_one());
    assert(m[0][1] == T::spec_zero());
    assert(m[1][0] == T::spec_zero());
    assert(m =~~= phase_shift_of(phase));
}

/// For an exact scalar type a matrix whose entries are results of the
/// numbers of a Fourier transform is that Fourier transform.
pub proof fn lemma_fourier_determined<T: Scalar>(f: Seq<Seq<T>>, k: nat)
    requires
        T::exact(),
        is_fourier(f, pow2(k)),
    ensures
        spec_quantum_fourier::<T>(k) == Some(f),
{
    let d = pow2(k);
    assert forall|i: int, j: int| 0 <= i < d && 0 <= j < d implies (#[trigger] fourier_entry::<T>(
        d,
        i,
        j,
    )) == Some(f[i][j]) by {
        assert(crate::complex::is_polar(
            d as u64,
            ((i * j) % (d as int)) as u64,
            d as u64,
            Some(f[i][j]),
        ));
    }
    assert(f =~~= spec_quantum_fourier::<T>(k).unwrap());
}

/// For an exact scalar type a literal has one value.
pub proof fn lemma_literal_determined<T: Scalar>(v: Seq<char>, r: Result<ValueView<T>, ErrorView>)
    requires
        T::exact(),
        literal_gives(v, r),
    ensures
        r == spec_literal::<T>(v),
{
    if v == "G_H"@ {
        match r {
            Ok(ValueView::Matrix(m)) => {
                lemma_hadamard_determined(m);
            },
            _ => {},
        }
    } else if v == "G_CNOT"@ {
        match r {
            Ok(ValueView::Matrix(m)) => {
                lemma_permutation_determined(m, 4, |j: int| crate::gates::cnot_target(j));
            },
            _ => {},
        }
    } else if crate::prefabs::has_shape(v, "G_R_"@, 1) {
        lemma_phase_literal_determined(crate::prefabs::spec_prefab_numbers(v, 1), r);
    } else if crate::prefabs::has_shape(v, "G_I_"@, 1) {
        lemma_identity_literal_determined(crate::prefabs::spec_prefab_numbers(v, 1), r);
    } else if crate::prefabs::has_shape(v, "G_Uf_"@, 2) {
        lemma_oracle_literal_determined(crate::prefabs::spec_prefab_numbers(v, 2), r);
    } else if crate::prefabs::has_shape(v, "G_QFTI_"@, 1) {
        lemma_fourier_literal_determined(crate::prefabs::spec_prefab_numbers(v, 1), r);
    }
}

/// For an exact scalar type the name of a phase shift has one value.
proof fn lemma_phase_literal_determined<T: Scalar>(
    numbers: Option<Seq<nat>>,
    r: Result<ValueView<T>, ErrorView>,
)
    requires
        T::exact(),
        phase_gives(numbers, r),
    ensures
        r == spec_phase_literal::<T>(numbers),
{
    match (numbers, r) {
        (Some(ns), Ok(ValueView::Matrix(m))) => {
            if !(ns.len() != 1 || ns[0] == 0 || ns[0] > u64::MAX / 2) {
                lemma_phase_shift_determined(m, ns[0] as u64);
            }
        },
        _ => {},
    }
}

/// For an exact scalar type the name of an identity has one value.
proof fn lemma_identity_literal_determined<T: Scalar>(
    numbers: Option<Seq<nat>>,
    r: Result<ValueView<T>, ErrorView>,
)
    requires
        T::exact(),
        identity_gives(numbers, r),
    ensures
        r == spec_identity_literal::<T>(numbers),
{
    match (numbers, r) {
        (Some(ns), Ok(ValueView::Matrix(m))) => {
            if !(ns.len() != 1 || ns[0] == 0) {
                assert(is_identity_of(ns[0], m));
                assert(m =~~= spec_identity::<T>(ns[0]));
            }
        },
        _ => {},
    }
}

/// For an exact scalar type the name of a modular exponentiation has one
/// value.
proof fn lemma_oracle_literal_determined<T: Scalar>(
    numbers: Option<Seq<nat>>,
    r: Result<ValueView<T>, ErrorView>,
)
    requires
        T::exact(),
        oracle_gives(numbers, r),
    ensures
        r == spec_oracle_literal::<T>(numbers),
{
    match (numbers, r) {
        (Some(ns), Ok(ValueView::Matrix(m))) => {
            if !(ns.len() != 2 || ns[0] > u32::MAX || ns[1] == 0 || ns[1] > u32::MAX || pow2(
                crate::gates::oracle_qubits(ns[1]),
            ) > usize::MAX) {
                lemma_permutation_determined(
                    m,
                    pow2(crate::gates::oracle_qubits(ns[1])),
                    |j: int|
                        crate::gates::oracle_target(
                            ns[0],
                            ns[1],
                            pow2(crate::gates::value_bits(ns[1])),
                            j,
                        ),
                );
            }
        },
        _ => {},
    }
}

/// For an exact scalar type the name of an inverse Fourier transform has
/// one value.
proof fn lemma_fourier_literal_determined<T: Scalar>(
    numbers: Option<Seq<nat>>,
    r: Result<ValueView<T>, ErrorView>,
)
    requires
        T::exact(),
        fourier_gives(numbers, r),
    ensures
        r == spec_fourier_literal::<T>(numbers),
{
    match numbers {
        Some(ns) => {
            if !(ns.len() != 1 || pow2(ns[0]) > usize::MAX) {
                let d = pow2(ns[0]);
                match r {
                    Ok(ValueView::Matrix(m)) => {
                        assert(is_inverse_fourier(m, d));
                        let f = choose|f: Seq<Seq<T>>| #[trigger]
                            is_fourier(f, d) && is_adjoint_of(f, m);
                        lemma_fourier_determined(f, ns[0]);
                        crate::matrix::lemma_adjoint_exact(f, m);
                    },
                    Ok(_) => {},
                    Err(e) => {
                        let (i, j) = choose|i: int, j: int| #[trigger]
                            fourier_missing_at::<T>(d, i, j);
                        assert(fourier_entry::<T>(d, i, j).is_none());
                    },
                }
            }
        },
        None => {},
    }
}

/// For an exact scalar type an operation that gives a value gives one value.
pub proof fn lemma_value_determined<T: Scalar>(
    func: Seq<char>,
    params: Seq<Named<T>>,
    value: Result<ValueView<T>, ErrorView>,
    memory: MemoryView<T>,
)
    requires
        T::exact(),
        crate::outcomes::is_value_op(func),
        value_gives(func, params, value),
    ensures
        spec_builtin(func, params, memory) == crate::executor::pure_step(func, value, memory),
{
    if func == "INITIALIZE"@ {
        match (params[0].1, value) {
            (ValueView::Int(n), Ok(ValueView::Matrix(m))) => {
                if params.len() == 1 && !(n < 0 || pow2(n as nat) > usize::MAX) {
                    assert(is_unit_column(pow2(n as nat), m));
                    assert(m =~~= spec_unit_column::<T>(pow2(n as nat)));
                }
            },
            _ => {},
        }
        assert(value == spec_initialize(params));
    } else if func == "INVERSE"@ {
        match (params[0].1, value) {
            (ValueView::Matrix(m), Ok(ValueView::Matrix(adj))) => {
                if params.len() == 1 {
                    crate::matrix::lemma_hermitian_exact(m, true);
                    crate::matrix::lemma_adjoint_exact(m, adj);
                }
            },
            (ValueView::Matrix(m), Err(e)) => {
                if params.len() == 1 {
                    crate::matrix::lemma_hermitian_exact(m, false);
                }
            },
            _ => {},
        }
        assert(value == spec_inverse(params));
    } else if func == "TENSOR"@ {
        match (crate::executor::two_matrices(params), value) {
            (Ok((a, b)), Ok(ValueView::Matrix(m))) => {
                if !(rows(a) * rows(b) > usize::MAX || cols(a) * cols(b) > usize::MAX) {
                    assert(is_tensor_of(a, b, m));
                    assert(m =~~= spec_tensor(a, b));
                }
            },
            _ => {},
        }
        assert(value == spec_tensor_op(params));
    } else if func == "CONCAT"@ {
        match (crate::executor::two_matrices(params), value) {
            (Ok((a, b)), Ok(ValueView::Matrix(m))) => {
                if !(rows(a) != rows(b) || cols(a) != cols(b) || cols(a) != rows(b)) {
                    crate::matrix::lemma_product_exact(a, b, m);
                }
            },
            _ => {},
        }
        assert(value == spec_concat(params));
    } else if func == "APPLY"@ {
        match (crate::executor::two_matrices(params), value) {
            (Ok((u, v)), Ok(ValueView::Matrix(m))) => {
                if !(cols(v) != 1 || rows(v) != cols(u) || rows(u) != cols(u)) {
                    crate::matrix::lemma_product_exact(u, v, m);
                }
            },
            _ => {},
        }
        assert(value == spec_apply(params));
    }
}

/// For an exact scalar type a measurement with a given draw has one result.
pub proof fn lemma_measure_determined<T: Scalar>(
    func: Seq<char>,
    params: Seq<Named<T>>,
    memory: MemoryView<T>,
    r: Result<Step<T>, Failure<T>>,
)
    requires
        T::exact(),
        measure_gives(func, params, memory, r),
    ensures
        r == spec_measure_op(func, params, memory),
{
    if params.len() == 1 {
        let draw = crate::executor::next_draw(memory);
        match params[0].1 {
            ValueView::Matrix(m) => {
                let (w, outcome) = choose|w: Seq<u64>, outcome: Result<Seq<char>, MeasureError>|
                 #[trigger]
                    is_measurement(m, draw, w, outcome) && r == crate::outcomes::measured_step(
                        func,
                        m,
                        memory,
                        outcome,
                    );
                if spec_qbit_length(m).is_some() {
                    crate::quantum_sim::lemma_weights_exact(m, w);
                }
                assert(outcome == spec_measure(m, draw));
            },
            ValueView::Selection(key, region, from, to) => {
                if memory.heap.contains_key(key) {
                    match memory.heap[key] {
                        ValueView::Matrix(m) => {
                            let (part, w, outcome) = choose|
                                part: Seq<Seq<T>>,
                                w: Seq<u64>,
                                outcome: Result<(Seq<Seq<T>>, Seq<char>), MeasureError>,
                            |
                             #[trigger]
                                is_partial_measurement(
                                    m,
                                    from as int,
                                    to as int,
                                    draw,
                                    part,
                                    w,
                                    outcome,
                                ) && r == crate::outcomes::collapsed_step(
                                    func,
                                    key,
                                    memory,
                                    outcome,
                                );
                            lemma_partial_determined(m, from as int, to as int, draw, part, w, outcome);
                        },
                        _ => {},
                    }
                }
            },
            _ => {},
        }
    }
}

/// For an exact scalar type a measurement of some qubits with a given draw
/// has one outcome.
pub proof fn lemma_partial_determined<T: Scalar>(
    v: Seq<Seq<T>>,
    from: int,
    to: int,
    draw: nat,
    part: Seq<Seq<T>>,
    w: Seq<u64>,
    outcome: Result<(Seq<Seq<T>>, Seq<char>), MeasureError>,
)
    requires
        T::exact(),
        is_partial_measurement(v, from, to, draw, part, w, outcome),
    ensures
        outcome == spec_measure_partial(v, from, to, draw),
{
    match spec_qbit_length(v) {
        Some(q) => {
            if 0 <= from <= to <= q {
                crate::quantum_sim::lemma_compact_exact(v, q, from as nat, to as nat, part);
                crate::quantum_sim::lemma_weights_exact(part, w);
                let k = crate::quantum_sim::picked(w, draw);
                vstd::arithmetic::power2::lemma_pow2_pos(q);
                match outcome {
                    Ok((state, bits)) => {
                        crate::quantum_sim::lemma_collapse_exact(
                            v,
                            q,
                            from as nat,
                            to as nat,
                            k,
                            state,
                        );
                    },
                    Err(e) => {},
                }
            }
        },
        None => {},
    }
}

/// For an exact scalar type a built-in operation has one result.
pub proof fn lemma_builtin_determined<T: Scalar>(
    func: Seq<char>,
    params: Seq<Named<T>>,
    memory: MemoryView<T>,
    r: Result<Step<T>, Failure<T>>,
)
    requires
        T::exact(),
        builtin_gives(func, params, memory, r),
    ensures
        r == spec_builtin(func, params, memory),
{
    if crate::outcomes::is_value_op(func) {
        let value = choose|value: Result<ValueView<T>, ErrorView>|
            value_gives(func, params, value) && #[trigger] is_pure_step(func, memory, value, r);
        lemma_value_determined(func, params, value, memory);
    } else if func == "MEASURE"@ {
        lemma_measure_determined(func, params, memory, r);
    }
}

/// For an exact scalar type the evaluation of a node has one result.
pub proof fn lemma_node_determined<T: Scalar>(
    node: AstView,
    memory: MemoryView<T>,
    r: Result<Step<T>, Failure<T>>,
)
    requires
        T::exact(),
        node_gives(node, memory, r),
    ensures
        r == spec_node(node, memory),
    decreases node, 0nat,
{
    match node {
        AstView::Literal(v) => {
            let value = choose|value: Result<ValueView<T>, ErrorView>|
                literal_gives(v, value) && #[trigger] is_pure_step("_"@, memory, value, r);
            lemma_literal_determined(v, value);
        },
        AstView::Identifier(name) => {},
        AstView::VariableAssignment(name, region, body) => {
            let inner = choose|inner: Result<Step<T>, Failure<T>>|
                node_gives(*body, memory, inner) && #[trigger] is_assigned(name, region, inner, r);
            lemma_node_determined(*body, memory, inner);
        },
        AstView::FunctionApplication(func, args) => {
            let operands = choose|operands: Operands<T>|
                args_give(args, args.len(), memory, operands) && #[trigger] application_gives(
                    func,
                    operands,
                    r,
                );
            lemma_args_determined(args, args.len(), memory, operands);
            match operands {
                Ok((after, params)) => {
                    lemma_builtin_determined(func, params, after, r);
                },
                Err(e) => {},
            }
        },
    }
}

/// For an exact scalar type the evaluation of operands has one result.
pub proof fn lemma_args_determined<T: Scalar>(
    args: Seq<AstView>,
    n: nat,
    memory: MemoryView<T>,
    r: Operands<T>,
)
    requires
        T::exact(),
        args_give(args, n, memory, r),
    ensures
        r == spec_args(args, n, memory),
    decreases args, n,
{
    if !(n == 0 || n > args.len()) {
        let (before, last) = choose|before: Operands<T>, last: Result<Step<T>, Failure<T>>|
            args_give(args, (n - 1) as nat, memory, before) && (before matches Ok((at, params))
                ==> node_gives(args[n - 1], at, last)) && #[trigger] is_with_operand(
                before,
                last,
                r,
            );
        lemma_args_determined(args, (n - 1) as nat, memory, before);
        match before {
            Ok((at, params)) => {
                lemma_node_determined(args[n - 1], at, last);
            },
            Err(e) => {},
        }
    }
}

/// For an exact scalar type the statements of a program leave one memory.
pub proof fn lemma_statements_determined<T: Scalar>(
    nodes: Seq<AstView>,
    n: nat,
    memory: MemoryView<T>,
    r: Result<MemoryView<T>, Failure<T>>,
)
    requires
        T::exact(),
        statements_give(nodes, n, memory, r),
    ensures
        r == spec_statements(nodes, n, memory),
    decreases n,
{
    if !(n == 0 || n > nodes.len()) {
        let (before, last) = choose|
            before: Result<MemoryView<T>, Failure<T>>,
            last: Result<Step<T>, Failure<T>>,
        |
            statements_give(nodes, (n - 1) as nat, memory, before) && (before matches Ok(at)
                ==> node_gives(nodes[n - 1], at, last)) && #[trigger] is_with_statement(
                before,
                last,
                r,
            );
        lemma_statements_determined(nodes, (n - 1) as nat, memory, before);
        match before {
            Ok(at) => {
                lemma_node_determined(nodes[n - 1], at, last);
            },
            Err(e) => {},
        }
    }
}

/// For an exact scalar type a run of a program with given draws has one
/// measurement log.
pub proof fn lemma_execute_determined<T: Scalar>(
    nodes: Seq<AstView>,
    draws: Seq<u128>,
    r: Result<Map<Seq<char>, (Seq<Seq<T>>, Seq<char>)>, ErrorView>,
)
    requires
        T::exact(),
        execute_gives(nodes, draws, r),
    ensures
        r == spec_execute::<T>(nodes, draws),
{
    let memory = choose|memory: Result<MemoryView<T>, Failure<T>>|
        statements_give(
            nodes,
            nodes.len(),
            crate::executor::initial_memory::<T>(draws),
            memory,
        ) && #[trigger] is_log_of(memory, r);
    lemma_statements_determined(
        nodes,
        nodes.len(),
        crate::executor::initial_memory::<T>(draws),
        memory,
    );
}

/// For an exact scalar type a run of a program text with given draws has
/// one outcome.
pub proof fn lemma_run_determined<T: Scalar>(
    text: Seq<char>,
    draws: Seq<u128>,
    r: Result<Map<Seq<char>, (Seq<Seq<T>>, Seq<char>)>, crate::quantum_assembler::SimErrorView>,
)
    requires
        T::exact(),
        crate::quantum_assembler::run_gives(text, draws, r),
    ensures
        r == crate::quantum_assembler::spec_run::<T>(text, draws),
{
    match crate::parser::spec_parse(text) {
        Ok(nodes) => {
            let log = choose|log: Result<Map<Seq<char>, (Seq<Seq<T>>, Seq<char>)>, ErrorView>|
             #[trigger]
                execute_gives(nodes, draws, log) && r == crate::quantum_assembler::run_outcome(log);
            lemma_execute_determined(nodes, draws, log);
        },
        Err(e) => {},
    }
}

} // verus!
