//! The gates that a program can name.

use crate::complex::{is_one, is_polar, is_ring, is_zero, Scalar};
use crate::matrix::{
    agrees, dot_upto, entries_hold, has_shape, rows, spec_adjoint, spec_identity, spec_is_unitary,
    spec_multiply, tabulate, Matrix,
};
use vstd::arithmetic::power2::pow2;
use vstd::prelude::*;

verus! {

/// The matrix that sends the basis state `j` to the basis state `target(j)`.
pub open spec fn permutation<T: Scalar>(n: nat, target: spec_fn(int) -> int) -> Seq<Seq<T>> {
    tabulate(
        n,
        n,
        |i: int, j: int|
            if i == target(j) {
                T::spec_one()
            } else {
                T::spec_zero()
            },
    )
}

/// `target` maps the numbers below `n` onto themselves, and `inverse` undoes it.
pub open spec fn is_bijection(n: nat, target: spec_fn(int) -> int, inverse: spec_fn(int) -> int)
    -> bool {
    &&& forall|j: int| 0 <= j < n ==> 0 <= #[trigger] target(j) < n
    &&& forall|i: int| 0 <= i < n ==> 0 <= #[trigger] inverse(i) < n
    &&& forall|j: int| 0 <= j < n ==> inverse(#[trigger] target(j)) == j
    &&& forall|i: int| 0 <= i < n ==> target(#[trigger] inverse(i)) == i
}

/// Where the controlled NOT sends a basis state of two qubits: the low
/// qubit is flipped when the high qubit is set.
pub open spec fn cnot_target(j: int) -> int {
    if j == 2 {
        3
    } else if j == 3 {
        2
    } else {
        j
    }
}

/// The controlled NOT on two qubits, with the high qubit as control.
pub open spec fn spec_cnot<T: Scalar>() -> Seq<Seq<T>> {
    permutation(4, |j: int| cnot_target(j))
}

/// The Hadamard gate made of the two numbers `1/sqrt(2)` and `-1/sqrt(2)`.
pub open spec fn hadamard_of<T: Scalar>(plus: T, minus: T) -> Seq<Seq<T>> {
    tabulate(
        2,
        2,
        |i: int, j: int|
            if i == 1 && j == 1 {
                minus
            } else {
                plus
            },
    )
}

/// The Hadamard gate, where the scalar type holds its entries.
pub open spec fn spec_hadamard<T: Scalar>() -> Option<Seq<Seq<T>>> {
    match (T::spec_polar(2, 0, 1), T::spec_polar(2, 1, 2)) {
        (Some(plus), Some(minus)) => Some(hadamard_of(plus, minus)),
        _ => None,
    }
}

/// The phase shift with the given phase factor: `diag(1, phase)`.
pub open spec fn phase_shift_of<T: Scalar>(phase: T) -> Seq<Seq<T>> {
    tabulate(
        2,
        2,
        |i: int, j: int|
            if i != j {
                T::spec_zero()
            } else if i == 0 {
                T::spec_one()
            } else {
                phase
            },
    )
}

/// The phase shift by `pi / k`, where the scalar type holds `e^(i pi / k)`.
pub open spec fn spec_phase_shift<T: Scalar>(k: u64) -> Option<Seq<Seq<T>>> {
    if k == 0 || 2 * k > u64::MAX {
        None
    } else {
        match T::spec_polar(1, 1, (2 * k) as u64) {
            Some(phase) => Some(phase_shift_of(phase)),
            None => None,
        }
    }
}

/// The entry of the Fourier transform of dimension `d` at `(i, j)`:
/// `w^(i j) / sqrt(d)` with `w = e^(2 pi i / d)`.
pub open spec fn fourier_entry<T: Scalar>(d: nat, i: int, j: int) -> Option<T> {
    T::spec_polar(d as u64, ((i * j) % (d as int)) as u64, d as u64)
}

/// The scalar type holds every entry of the Fourier transform of dimension `d`.
pub open spec fn fourier_held<T: Scalar>(d: nat) -> bool {
    forall|i: int, j: int| 0 <= i < d && 0 <= j < d ==> (#[trigger] fourier_entry::<T>(d, i, j)).is_some()
}

/// The quantum Fourier transform of `k` qubits, where the scalar type holds
/// its entries.
pub open spec fn spec_quantum_fourier<T: Scalar>(k: nat) -> Option<Seq<Seq<T>>> {
    let d = pow2(k);
    if fourier_held::<T>(d) {
        Some(tabulate(d, d, |i: int, j: int| fourier_entry::<T>(d, i, j).unwrap()))
    } else {
        None
    }
}

/// The value register of the modular exponentiation after the step for the
/// exponent `x`: `a^x mod n`.
pub open spec fn oracle_value(a: nat, n: nat, x: nat) -> u64 {
    crate::util::spec_mod_power(a, x, n) as u64
}

/// Where the modular exponentiation sends the basis state `j`, for a value
/// register of `size` states: the exponent `x = j / size` stays, and the
/// value `y = j % size` becomes `y xor (a^x mod n)`.
pub open spec fn oracle_target(a: nat, n: nat, size: nat, j: int) -> int {
    let x = j / (size as int);
    let y = (j % (size as int)) as u64;
    x * size + (y ^ oracle_value(a, n, x as nat))
}

/// The number of qubits of the value register for the modulus `n`.
pub open spec fn value_bits(n: nat) -> nat {
    crate::util::bit_size(n)
}

/// The number of qubits that the modular exponentiation for `n` acts on:
/// twice the value register for the exponent, and the value register.
pub open spec fn oracle_qubits(n: nat) -> nat {
    3 * value_bits(n)
}

/// The modular exponentiation unitary for the base `a` and the modulus `n`.
pub open spec fn spec_unitary_modular<T: Scalar>(a: nat, n: nat) -> Seq<Seq<T>> {
    let size = pow2(value_bits(n));
    permutation(
        pow2(oracle_qubits(n)),
        |j: int| oracle_target(a, n, size, j),
    )
}

/// One term of the product of a permutation matrix and its adjoint.
proof fn lemma_permutation_term<T: Scalar>(n: nat, target: spec_fn(int) -> int, i: int, k: int, j: int)
    requires
        is_ring::<T>(),
        n > 0,
        0 <= i < n,
        0 <= k < n,
        0 <= j < n,
    ensures
        permutation::<T>(n, target)[i][j].spec_times(spec_adjoint(permutation::<T>(n, target))[j][k])
            == (if i == target(j) && k == target(j) {
            T::spec_one()
        } else {
            T::spec_zero()
        }),
{
    let p = permutation::<T>(n, target);
    let one = T::spec_one();
    let zero = T::spec_zero();
    assert(spec_adjoint(p)[j][k] == p[k][j].spec_conjugate());
    crate::complex::lemma_ring_conjugate(one, zero);
    crate::complex::lemma_ring_times(one, one, zero);
    crate::complex::lemma_ring_times(zero, zero, one);
}

/// The partial sums of an entry of the product of a permutation matrix and
/// its adjoint: one as soon as the column that holds the one of both rows
/// is passed, zero before and everywhere off the diagonal.
proof fn lemma_permutation_dot<T: Scalar>(
    n: nat,
    target: spec_fn(int) -> int,
    inverse: spec_fn(int) -> int,
    i: int,
    k: int,
    m: int,
)
    requires
        is_ring::<T>(),
        n > 0,
        is_bijection(n, target, inverse),
        0 <= i < n,
        0 <= k < n,
        0 <= m <= n,
    ensures
        dot_upto(
            permutation::<T>(n, target),
            spec_adjoint(permutation::<T>(n, target)),
            i,
            k,
            m,
        ) == (if i == k && inverse(i) < m {
            T::spec_one()
        } else {
            T::spec_zero()
        }),
    decreases m,
{
    if m > 0 {
        let j = m - 1;
        lemma_permutation_dot::<T>(n, target, inverse, i, k, j);
        lemma_permutation_term::<T>(n, target, i, k, j);
        let one = T::spec_one();
        let zero = T::spec_zero();
        crate::complex::lemma_ring_plus(zero, zero, one);
        crate::complex::lemma_ring_plus(one, zero, zero);
        if i == target(j) {
            assert(inverse(target(j)) == j);
        }
        if i == k && inverse(i) == j {
            assert(target(inverse(i)) == i);
        }
    }
}

/// A permutation matrix is unitary: its product with its adjoint is the
/// identity.
pub proof fn lemma_permutation_unitary<T: Scalar>(
    n: nat,
    target: spec_fn(int) -> int,
    inverse: spec_fn(int) -> int,
)
    requires
        is_ring::<T>(),
        n > 0,
        is_bijection(n, target, inverse),
    ensures
        spec_multiply(permutation::<T>(n, target), spec_adjoint(permutation::<T>(n, target)))
            == spec_identity::<T>(n),
        spec_is_unitary(permutation::<T>(n, target)),
{
    let p = permutation::<T>(n, target);
    let product = spec_multiply(p, spec_adjoint(p));
    let id = spec_identity::<T>(n);
    assert forall|i: int, k: int| 0 <= i < n && 0 <= k < n implies product[i][k] == id[i][k] by {
        lemma_permutation_dot::<T>(n, target, inverse, i, k, n as int);
    }
    crate::algebra::lemma_matrix_equal(product, id);
    assert forall|i: int, k: int| 0 <= i < n && 0 <= k < n implies (#[trigger] product[i][k]).spec_near(
        id[i][k],
    ) by {
        crate::complex::lemma_ring_near(product[i][k], id[i][k]);
    }
}

/// The identity matrix is unitary.
pub proof fn lemma_identity_unitary<T: Scalar>(n: nat)
    requires
        is_ring::<T>(),
        n > 0,
    ensures
        spec_is_unitary(spec_identity::<T>(n)),
{
    let same = |j: int| j;
    lemma_permutation_unitary::<T>(n, same, same);
    assert(permutation::<T>(n, same) =~~= spec_identity::<T>(n));
}

/// The controlled NOT is unitary.
pub proof fn lemma_cnot_unitary<T: Scalar>()
    requires
        is_ring::<T>(),
    ensures
        spec_is_unitary(spec_cnot::<T>()),
{
    let swap = |j: int| cnot_target(j);
    lemma_permutation_unitary::<T>(4, swap, swap);
}

/// The exclusive or of two numbers below `2^k` is below `2^k`, and taking it
/// twice with one number gives the other back.
pub proof fn lemma_xor_below(y: u64, f: u64, k: nat)
    requires
        k < 64,
        y < pow2(k),
        f < pow2(k),
    ensures
        (y ^ f) < pow2(k),
        ((y ^ f) ^ f) == y,
{
    let s = k as u64;
    vstd::bits::lemma_u64_pow2_no_overflow(k);
    vstd::bits::lemma_u64_shl_is_mul(1, s);
    assert((y ^ f) < (1u64 << s)) by (bit_vector)
        requires
            s < 64,
            y < (1u64 << s),
            f < (1u64 << s),
    ;
    assert(((y ^ f) ^ f) == y) by (bit_vector);
}

/// The value that the modular exponentiation adds in lies in the value register.
pub proof fn lemma_oracle_value_below(a: nat, n: nat, x: nat)
    requires
        0 < n <= u32::MAX,
    ensures
        oracle_value(a, n, x) == crate::util::spec_mod_power(a, x, n),
        oracle_value(a, n, x) < pow2(value_bits(n)),
{
    crate::util::lemma_bit_size(n);
    let k = value_bits(n);
    if k == 0 {
        vstd::arithmetic::power2::lemma2_to64();
    } else {
        vstd::arithmetic::power2::lemma_pow2_pos((k - 1) as nat);
        vstd::arithmetic::power2::lemma_pow2_unfold(k);
    }
    if x > 0 {
        vstd::arithmetic::div_mod::lemma_mod_bound(
            (crate::util::spec_mod_power(a, (x - 1) as nat, n) * a) as int,
            n as int,
        );
    }
}

/// The modular exponentiation maps the basis states onto themselves, and
/// undoes itself.
pub proof fn lemma_oracle_bijection(a: nat, n: nat)
    requires
        0 < n <= u32::MAX,
    ensures
        is_bijection(
            pow2(oracle_qubits(n)),
            |j: int| oracle_target(a, n, pow2(value_bits(n)), j),
            |j: int| oracle_target(a, n, pow2(value_bits(n)), j),
        ),
{
    let k = value_bits(n);
    let size = pow2(k);
    let exps = pow2(2 * k);
    let d = pow2(oracle_qubits(n));
    let t = |j: int| oracle_target(a, n, size, j);
    crate::util::lemma_bit_size(n);
    vstd::arithmetic::power2::lemma_pow2_adds(2 * k, k);
    vstd::arithmetic::power2::lemma_pow2_pos(k);
    vstd::arithmetic::power2::lemma_pow2_pos(2 * k);
    assert(k <= 32) by {
        vstd::arithmetic::power2::lemma2_to64();
        if k > 33 {
            vstd::arithmetic::power2::lemma_pow2_strictly_increases(32, (k - 1) as nat);
        }
    }
    assert(size <= 0x1_0000_0000) by {
        vstd::arithmetic::power2::lemma2_to64();
        if k < 32 {
            vstd::arithmetic::power2::lemma_pow2_strictly_increases(k, 32);
        }
    }
    assert forall|j: int| 0 <= j < d implies 0 <= #[trigger] t(j) < d && t(t(j)) == j by {
        let x = j / (size as int);
        let y = (j % (size as int)) as u64;
        let f = oracle_value(a, n, x as nat);
        crate::matrix::lemma_quotient_below(j, exps as int, size as int);
        lemma_oracle_value_below(a, n, x as nat);
        lemma_xor_below(y, f, k);
        let y2 = y ^ f;
        let j2 = x * size + y2;
        assert(t(j) == j2);
        vstd::arithmetic::div_mod::lemma_fundamental_div_mod_converse(
            j2,
            size as int,
            x,
            y2 as int,
        );
        assert(j2 < d) by (nonlinear_arith)
            requires
                0 <= x < exps,
                0 <= y2 < size,
                j2 == x * size + y2,
                d == exps * size,
        ;
        assert(j2 >= 0) by (nonlinear_arith)
            requires
                0 <= x,
                0 <= y2,
                size > 0,
                j2 == x * size + y2,
        ;
        vstd::arithmetic::div_mod::lemma_fundamental_div_mod(j, size as int);
        assert(t(j2) == x * size + (y2 ^ f));
        assert((size as int) * x == x * size) by (nonlinear_arith);
    }
}

/// The modular exponentiation unitary is unitary.
pub proof fn lemma_unitary_modular_unitary<T: Scalar>(a: nat, n: nat)
    requires
        is_ring::<T>(),
        0 < n <= u32::MAX,
    ensures
        spec_is_unitary(spec_unitary_modular::<T>(a, n)),
{
    let size = pow2(value_bits(n));
    let d = pow2(oracle_qubits(n));
    let t = |j: int| oracle_target(a, n, size, j);
    lemma_oracle_bijection(a, n);
    vstd::arithmetic::power2::lemma_pow2_pos(oracle_qubits(n));
    lemma_permutation_unitary::<T>(d, t, t);
}

/// The Hadamard gate of two real numbers `plus` and `minus` is unitary,
/// if twice the square of `plus` is one and `minus` is its negative: it has
/// the same square, and its product with `plus` cancels that square.
pub proof fn lemma_hadamard_unitary<T: Scalar>(plus: T, minus: T)
    requires
        is_ring::<T>(),
        plus.spec_conjugate() == plus,
        minus.spec_conjugate() == minus,
        plus.spec_times(plus).spec_plus(plus.spec_times(plus)) == T::spec_one(),
        minus.spec_times(minus) == plus.spec_times(plus),
        plus.spec_times(plus).spec_plus(plus.spec_times(minus)) == T::spec_zero(),
    ensures
        spec_is_unitary(hadamard_of(plus, minus)),
{
    let u = hadamard_of(plus, minus);
    let product = spec_multiply(u, spec_adjoint(u));
    let id = spec_identity::<T>(2);
    let zero = T::spec_zero();
    reveal_with_fuel(dot_upto, 3);
    crate::complex::lemma_ring_plus(plus.spec_times(plus), zero, zero);
    crate::complex::lemma_ring_times(plus, minus, zero);
    assert forall|i: int, j: int| 0 <= i < 2 && 0 <= j < 2 implies (#[trigger] product[i][j]).spec_near(
        id[i][j],
    ) by {
        assert(spec_adjoint(u)[0][j] == u[j][0].spec_conjugate());
        assert(spec_adjoint(u)[1][j] == u[j][1].spec_conjugate());
        assert(product[i][j] == dot_upto(u, spec_adjoint(u), i, j, 2));
        assert(product[i][j] == id[i][j]);
        crate::complex::lemma_ring_near(product[i][j], id[i][j]);
    }
}

/// A phase shift is unitary if its phase factor times its conjugate is one.
pub proof fn lemma_phase_shift_unitary<T: Scalar>(phase: T)
    requires
        is_ring::<T>(),
        phase.spec_times(phase.spec_conjugate()) == T::spec_one(),
    ensures
        spec_is_unitary(phase_shift_of(phase)),
{
    let u = phase_shift_of(phase);
    let product = spec_multiply(u, spec_adjoint(u));
    let id = spec_identity::<T>(2);
    let one = T::spec_one();
    let zero = T::spec_zero();
    reveal_with_fuel(dot_upto, 3);
    crate::complex::lemma_ring_conjugate(one, zero);
    crate::complex::lemma_ring_times(one, one, zero);
    crate::complex::lemma_ring_times(zero, zero, one);
    crate::complex::lemma_ring_times(phase, zero, zero);
    crate::complex::lemma_ring_times(phase.spec_conjugate(), zero, zero);
    crate::complex::lemma_ring_plus(zero, zero, one);
    crate::complex::lemma_ring_plus(one, zero, zero);
    assert forall|i: int, j: int| 0 <= i < 2 && 0 <= j < 2 implies (#[trigger] product[i][j]).spec_near(
        id[i][j],
    ) by {
        assert(spec_adjoint(u)[0][j] == u[j][0].spec_conjugate());
        assert(spec_adjoint(u)[1][j] == u[j][1].spec_conjugate());
        assert(product[i][j] == dot_upto(u, spec_adjoint(u), i, j, 2));
        assert(product[i][j] == id[i][j]);
        crate::complex::lemma_ring_near(product[i][j], id[i][j]);
    }
}

/// Over the complex numbers with integer parts, every phase shift that the
/// numbers hold is unitary.
pub proof fn lemma_exact_phase_shift_unitary(k: u64)
    ensures
        spec_phase_shift::<crate::complex::C>(k) matches Some(m) ==> spec_is_unitary(m),
{
    crate::complex::lemma_c_is_ring();
    if k != 0 && 2 * k <= u64::MAX {
        match crate::complex::C::spec_polar(1, 1, (2 * k) as u64) {
            Some(phase) => {
                crate::complex::lemma_wrap_small(0);
                crate::complex::lemma_wrap_small(1);
                crate::complex::lemma_wrap_small(-1i64);
                assert(phase.spec_times(phase.spec_conjugate()) == crate::complex::C::spec_one()) by {
                    let conj = phase.spec_conjugate();
                    assert(phase.a * conj.a - phase.b * conj.b == 1) by (nonlinear_arith)
                        requires
                            (phase.a == 1 && phase.b == 0) || (phase.a == 0 && phase.b == 1) || (
                            phase.a == -1 && phase.b == 0) || (phase.a == 0 && phase.b == -1),
                            conj.a == phase.a,
                            conj.b == -phase.b,
                    ;
                    assert(phase.a * conj.b + phase.b * conj.a == 0) by (nonlinear_arith)
                        requires
                            conj.a == phase.a,
                            conj.b == -phase.b,
                    ;
                }
                lemma_phase_shift_unitary(phase);
            },
            None => {},
        }
    }
}

/// Over the complex numbers with integer parts, every Fourier transform
/// that the numbers hold is unitary: it is the one of no qubit.
pub proof fn lemma_exact_fourier_unitary(k: nat)
    requires
        pow2(k) <= u64::MAX,
    ensures
        spec_quantum_fourier::<crate::complex::C>(k) matches Some(m) ==> k == 0 && spec_is_unitary(
            m,
        ),
{
    crate::complex::lemma_c_is_ring();
    vstd::arithmetic::power2::lemma2_to64();
    let d = pow2(k);
    if k > 0 {
        vstd::arithmetic::power2::lemma_pow2_strictly_increases(0, k);
        assert(fourier_entry::<crate::complex::C>(d, 0, 0).is_none());
    } else {
        lemma_identity_unitary::<crate::complex::C>(1);
        if fourier_held::<crate::complex::C>(d) {
            let m = spec_quantum_fourier::<crate::complex::C>(k)->Some_0;
            assert(fourier_entry::<crate::complex::C>(1, 0, 0) == Some(crate::complex::C::spec_one()));
            assert(m =~~= spec_identity::<crate::complex::C>(1));
        }
    }
}

/// `m` is a permutation matrix of dimension `n` for `target`: the entry at
/// `(target(j), j)` is a result of one, every other entry a result of zero.
pub open spec fn is_permutation<T: Scalar>(m: Seq<Seq<T>>, n: nat, target: spec_fn(int) -> int)
    -> bool {
    has_shape(m, n, n) && entries_hold(
        m,
        |i: int, j: int, v: T|
            if i == target(j) {
                is_one(v)
            } else {
                is_zero(v)
            },
    )
}

/// `m` is a Hadamard gate: its entries are results of the scalar type for
/// `1 / sqrt(2)`, and for `-1 / sqrt(2)` at the lower right.
pub open spec fn is_hadamard<T: Scalar>(m: Seq<Seq<T>>) -> bool {
    has_shape(m, 2, 2) && entries_hold(
        m,
        |i: int, j: int, v: T|
            if i == 1 && j == 1 {
                is_polar(2, 1, 2, Some(v))
            } else {
                is_polar(2, 0, 1, Some(v))
            },
    )
}

/// `m` is a phase shift by `pi / k`: its diagonal holds a result of one and
/// a result of the scalar type for `e^(i pi / k)`, the rest results of zero.
pub open spec fn is_phase_shift<T: Scalar>(m: Seq<Seq<T>>, k: u64) -> bool {
    has_shape(m, 2, 2) && entries_hold(
        m,
        |i: int, j: int, v: T|
            if i != j {
                is_zero(v)
            } else if i == 0 {
                is_one(v)
            } else {
                is_polar(1, 1, (2 * k) as u64, Some(v))
            },
    )
}

/// The scalar type can fail to hold the entry of the Fourier transform of
/// dimension `d` at `(i, j)`.
pub open spec fn fourier_missing_at<T: Scalar>(d: nat, i: int, j: int) -> bool {
    0 <= i < d && 0 <= j < d && is_polar::<T>(d as u64, ((i * j) % (d as int)) as u64, d as u64, None)
}

/// `m` is a Fourier transform of dimension `d`: the entry at `(i, j)` is a
/// result of the scalar type for `w^(i j) / sqrt(d)`.
pub open spec fn is_fourier<T: Scalar>(m: Seq<Seq<T>>, d: nat) -> bool {
    has_shape(m, d, d) && entries_hold(
        m,
        |i: int, j: int, v: T|
            is_polar(d as u64, ((i * j) % (d as int)) as u64, d as u64, Some(v)),
    )
}

/// The two-by-two matrix of the given entries.
fn two_by_two<T: Scalar>(a: T, b: T, c: T, d: T) -> (m: Matrix<T>)
    ensures
        has_shape(m@, 2, 2),
        m@[0][0] == a,
        m@[0][1] == b,
        m@[1][0] == c,
        m@[1][1] == d,
{
    let mut top: Vec<T> = Vec::new();
    top.push(a);
    top.push(b);
    let mut bottom: Vec<T> = Vec::new();
    bottom.push(c);
    bottom.push(d);
    let mut data: Vec<Vec<T>> = Vec::new();
    data.push(top);
    data.push(bottom);
    Matrix { data }
}

/// The Hadamard gate `[[1, 1], [1, -1]] / sqrt(2)`, or `None` where the
/// scalar type does not hold `1 / sqrt(2)` or `-1 / sqrt(2)`.
pub fn hadamard<T: Scalar>() -> (g: Option<Matrix<T>>)
    ensures
        match g {
            Some(m) => is_hadamard(m@),
            None => is_polar::<T>(2, 0, 1, None) || is_polar::<T>(2, 1, 2, None),
        },
        T::exact() ==> match g {
            Some(m) => spec_hadamard::<T>() == Some(m@),
            None => spec_hadamard::<T>().is_none(),
        },
{
    match (T::polar(2, 0, 1), T::polar(2, 1, 2)) {
        (Some(plus), Some(minus)) => {
            let m = two_by_two(plus, plus, plus, minus);
            assert(T::exact() ==> m@ =~~= hadamard_of(plus, minus));
            Some(m)
        },
        _ => None,
    }
}

/// The permutation matrix of dimension `size` for a table of targets.
fn permutation_of<T: Scalar>(targets: &Vec<usize>, Ghost(target): Ghost<spec_fn(int) -> int>) -> (m:
    Matrix<T>)
    requires
        targets@.len() > 0,
        forall|j: int| 0 <= j < targets@.len() ==> #[trigger] targets@[j] == target(j),
    ensures
        is_permutation(m@, targets@.len(), target),
        agrees(m@, permutation::<T>(targets@.len(), target)),
{
    let size = targets.len();
    let mut data: Vec<Vec<T>> = Vec::new();
    let mut i: usize = 0;
    while i < size
        invariant
            i <= size,
            size == targets@.len(),
            forall|j: int| 0 <= j < targets@.len() ==> #[trigger] targets@[j] == target(j),
            data@.len() == i,
            forall|p: int| 0 <= p < i ==> (#[trigger] data@[p])@.len() == size,
            forall|p: int, q: int|
                0 <= p < i && 0 <= q < size ==> (if p == target(q) {
                    is_one(#[trigger] data@[p]@[q])
                } else {
                    is_zero(data@[p]@[q])
                }),
        decreases size - i,
    {
        let mut line: Vec<T> = Vec::new();
        let mut j: usize = 0;
        while j < size
            invariant
                j <= size,
                i < size,
                size == targets@.len(),
                forall|j: int| 0 <= j < targets@.len() ==> #[trigger] targets@[j] == target(j),
                line@.len() == j,
                forall|q: int|
                    0 <= q < j ==> (if i as int == target(q) {
                        is_one(#[trigger] line@[q])
                    } else {
                        is_zero(line@[q])
                    }),
            decreases size - j,
        {
            if i == targets[j] {
                line.push(T::one());
            } else {
                line.push(T::zero());
            }
            j = j + 1;
        }
        data.push(line);
        i = i + 1;
    }
    let m = Matrix { data };
    assert(T::exact() ==> m@ =~~= permutation::<T>(size as nat, target));
    m
}

/// The controlled NOT on two qubits, with the high qubit as control: it
/// exchanges the basis states `10` and `11`.
pub fn cnot<T: Scalar>() -> (m: Matrix<T>)
    ensures
        is_permutation(m@, 4, |j: int| cnot_target(j)),
        agrees(m@, spec_cnot::<T>()),
{
    let mut targets: Vec<usize> = Vec::new();
    targets.push(0);
    targets.push(1);
    targets.push(3);
    targets.push(2);
    permutation_of(&targets, Ghost(|j: int| cnot_target(j)))
}

/// The phase shift by `pi / k`, `diag(1, e^(i pi / k))`, or `None` where the
/// scalar type does not hold that number or `k` is zero.
pub fn phase_shift<T: Scalar>(k: u64) -> (g: Option<Matrix<T>>)
    ensures
        match g {
            Some(m) => k > 0 && 2 * k <= u64::MAX && is_phase_shift(m@, k),
            None => k == 0 || 2 * k > u64::MAX || is_polar::<T>(1, 1, (2 * k) as u64, None),
        },
        T::exact() ==> match g {
            Some(m) => spec_phase_shift::<T>(k) == Some(m@),
            None => spec_phase_shift::<T>(k).is_none(),
        },
{
    if k == 0 || k > u64::MAX / 2 {
        return None;
    }
    match T::polar(1, 1, 2 * k) {
        Some(phase) => {
            let m = two_by_two(T::one(), T::zero(), T::zero(), phase);
            assert(T::exact() ==> m@ =~~= phase_shift_of(phase));
            Some(m)
        },
        None => None,
    }
}

/// The quantum Fourier transform of `n` qubits: the entry at `(i, j)` is
/// `w^(i j) / sqrt(d)` with `d = 2^n` and `w = e^(2 pi i / d)`. `None` where
/// the scalar type does not hold one of the entries.
pub fn quantum_fourier<T: Scalar>(n: usize) -> (g: Option<Matrix<T>>)
    requires
        pow2(n as nat) <= usize::MAX,
    ensures
        match g {
            Some(m) => is_fourier(m@, pow2(n as nat)),
            None => exists|i: int, j: int| #[trigger] fourier_missing_at::<T>(pow2(n as nat), i, j),
        },
        T::exact() ==> match g {
            Some(m) => spec_quantum_fourier::<T>(n as nat) == Some(m@),
            None => spec_quantum_fourier::<T>(n as nat).is_none(),
        },
{
    let d = crate::util::power_of_two(n);
    let ghost dim = d as nat;
    proof {
        vstd::arithmetic::power2::lemma_pow2_pos(n as nat);
    }
    let mut data: Vec<Vec<T>> = Vec::new();
    let mut i: usize = 0;
    while i < d
        invariant
            i <= d,
            d > 0,
            dim == d,
            d == pow2(n as nat),
            data@.len() == i,
            forall|p: int| 0 <= p < i ==> (#[trigger] data@[p])@.len() == d,
            forall|p: int, q: int|
                0 <= p < i && 0 <= q < d ==> is_polar(
                    dim as u64,
                    ((p * q) % (dim as int)) as u64,
                    dim as u64,
                    Some(#[trigger] data@[p]@[q]),
                ),
        decreases d - i,
    {
        let mut line: Vec<T> = Vec::new();
        let mut j: usize = 0;
        while j < d
            invariant
                j <= d,
                i < d,
                d > 0,
                dim == d,
                d == pow2(n as nat),
                line@.len() == j,
                forall|q: int|
                    0 <= q < j ==> is_polar(
                        dim as u64,
                        ((i * q) % (dim as int)) as u64,
                        dim as u64,
                        Some(#[trigger] line@[q]),
                    ),
            decreases d - j,
        {
            assert((i as u128) * (j as u128) <= 0xffff_ffff_ffff_ffff * 0xffff_ffff_ffff_ffff)
                by (nonlinear_arith)
                requires
                    i <= 0xffff_ffff_ffff_ffff,
                    j <= 0xffff_ffff_ffff_ffff,
            ;
            let turn: u128 = ((i as u128) * (j as u128)) % (d as u128);
            match T::polar(d as u64, turn as u64, d as u64) {
                Some(v) => {
                    line.push(v);
                },
                None => {
                    assert(fourier_missing_at::<T>(dim, i as int, j as int));
                    assert(T::exact() ==> fourier_entry::<T>(dim, i as int, j as int).is_none());
                    return None;
                },
            }
            j = j + 1;
        }
        data.push(line);
        i = i + 1;
    }
    let m = Matrix { data };
    proof {
        if T::exact() {
            assert forall|p: int, q: int| 0 <= p < dim && 0 <= q < dim implies (
            #[trigger] fourier_entry::<T>(dim, p, q)) == Some(m@[p][q]) by {
                assert(is_polar(
                    dim as u64,
                    ((p * q) % (dim as int)) as u64,
                    dim as u64,
                    Some(data@[p]@[q]),
                ));
            }
            assert(m@ =~~= tabulate(
                dim,
                dim,
                |i: int, j: int| fourier_entry::<T>(dim, i, j).unwrap(),
            ));
        }
    }
    Some(m)
}

/// The table of `a^x mod n` for all `x` below `count`.
fn power_table(a: u32, n: u32, count: usize) -> (table: Vec<u64>)
    requires
        n > 0,
    ensures
        table@.len() == count,
        forall|x: int|
            0 <= x < count ==> #[trigger] table@[x] == oracle_value(a as nat, n as nat, x as nat),
{
    let mut table: Vec<u64> = Vec::new();
    let mut value: u64 = 1;
    let mut x: usize = 0;
    while x < count
        invariant
            x <= count,
            n > 0,
            table@.len() == x,
            value == crate::util::spec_mod_power(a as nat, x as nat, n as nat),
            value <= u32::MAX,
            forall|p: int|
                0 <= p < x ==> #[trigger] table@[p] == oracle_value(a as nat, n as nat, p as nat),
        decreases count - x,
    {
        table.push(value);
        assert(value * (a as u64) <= 0xffff_ffff * 0xffff_ffff) by (nonlinear_arith)
            requires
                value <= 0xffff_ffff,
                a <= 0xffff_ffff,
        ;
        value = (value * (a as u64)) % (n as u64);
        x = x + 1;
    }
    table
}

/// Where the modular exponentiation sends every basis state.
fn oracle_targets(a: u32, n: u32) -> (targets: Vec<usize>)
    requires
        n > 0,
        pow2(oracle_qubits(n as nat)) <= usize::MAX,
    ensures
        targets@.len() == pow2(oracle_qubits(n as nat)),
        forall|j: int|
            0 <= j < targets@.len() ==> #[trigger] targets@[j] == oracle_target(
                a as nat,
                n as nat,
                pow2(value_bits(n as nat)),
                j,
            ),
{
    let k = crate::util::min_bit_size(n) as usize;
    proof {
        vstd::arithmetic::power2::lemma_pow2_adds(2 * (k as nat), k as nat);
        vstd::arithmetic::power2::lemma_pow2_pos(k as nat);
        vstd::arithmetic::power2::lemma_pow2_pos(2 * (k as nat));
        vstd::arithmetic::power2::lemma_pow2_pos(3 * (k as nat));
        let e = pow2(2 * (k as nat));
        let s = pow2(k as nat);
        assert(e <= e * s && s <= e * s) by (nonlinear_arith)
            requires
                e > 0,
                s > 0,
        ;
    }
    let size = crate::util::power_of_two(k);
    let exps = crate::util::power_of_two(2 * k);
    let d = crate::util::power_of_two(3 * k);
    let table = power_table(a, n, exps);
    let mut targets: Vec<usize> = Vec::new();
    let mut j: usize = 0;
    while j < d
        invariant
            j <= d,
            0 < n <= u32::MAX,
            k == value_bits(n as nat),
            k <= 32,
            size == pow2(k as nat),
            exps == pow2(2 * (k as nat)),
            d == pow2(3 * (k as nat)),
            d == exps * size,
            size > 0,
            table@.len() == exps,
            forall|x: int|
                0 <= x < exps ==> #[trigger] table@[x] == oracle_value(
                    a as nat,
                    n as nat,
                    x as nat,
                ),
            targets@.len() == j,
            forall|q: int|
                0 <= q < j ==> #[trigger] targets@[q] == oracle_target(
                    a as nat,
                    n as nat,
                    size as nat,
                    q,
                ),
        decreases d - j,
    {
        let x: usize = j / size;
        let y: u64 = (j % size) as u64;
        proof {
            crate::matrix::lemma_quotient_below(j as int, exps as int, size as int);
            lemma_oracle_value_below(a as nat, n as nat, x as nat);
            lemma_xor_below(y, table@[x as int], k as nat);
            assert(x * size + (y ^ table@[x as int]) < d) by (nonlinear_arith)
                requires
                    0 <= x < exps,
                    0 <= (y ^ table@[x as int]) < size,
                    d == exps * size,
            ;
        }
        let moved: u64 = y ^ table[x];
        targets.push(x * size + (moved as usize));
        j = j + 1;
    }
    targets
}

/// The modular exponentiation unitary for the base `a` and the modulus `n`.
///
/// With `k` the number of binary digits of `n`, it acts on `3 k` qubits:
/// an exponent `x` of `2 k` qubits in the high places and a value `y` of
/// `k` qubits in the low places. The basis state `(x, y)` goes to
/// `(x, y xor (a^x mod n))`.
pub fn unitary_modular<T: Scalar>(a: usize, n: usize) -> (m: Matrix<T>)
    requires
        a <= u32::MAX,
        0 < n <= u32::MAX,
        pow2(oracle_qubits(n as nat)) <= usize::MAX,
    ensures
        is_permutation(
            m@,
            pow2(oracle_qubits(n as nat)),
            |j: int| oracle_target(a as nat, n as nat, pow2(value_bits(n as nat)), j),
        ),
        agrees(m@, spec_unitary_modular::<T>(a as nat, n as nat)),
{
    let targets = oracle_targets(a as u32, n as u32);
    proof {
        vstd::arithmetic::power2::lemma_pow2_pos(oracle_qubits(n as nat));
    }
    permutation_of(
        &targets,
        Ghost(|j: int| oracle_target(a as nat, n as nat, pow2(value_bits(n as nat)), j)),
    )
}

} // verus!
