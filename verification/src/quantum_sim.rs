//! Quantum states: probabilities, measurement and collapse.
//!
//! An outcome is drawn with a chance in proportion to the weight of its
//! amplitude, which is the squared modulus as the scalar type reports it.
//! A draw is a whole number below the sum of all weights: the outcome is the
//! first basis state at which the running sum of the weights exceeds the draw.
//! Where all weights are zero there is nothing to draw from, and the outcome
//! is the first basis state.

use crate::complex::{is_sum, is_weight, is_zero, Scalar};
use crate::matrix::{cols, entries_hold, has_shape, is_rect, rows, tabulate, Matrix};
use crate::util::binary_digits;
use vstd::arithmetic::power2::pow2;
use vstd::prelude::*;

verus! {

/// Why a state cannot be measured.
#[derive(Debug, Copy, Clone, PartialEq, Eq, Structural)]
pub enum MeasureError {
    /// The matrix is not a vector whose length is a power of two.
    NotAQubitVector,
    /// The range of qubits does not lie within the register.
    InvalidRange,
}

/// `v` is the state of `q` qubits: a vector of `2^q` amplitudes.
pub open spec fn is_qubit_vector<T>(v: Seq<Seq<T>>, q: nat) -> bool {
    is_rect(v) && cols(v) == 1 && rows(v) == pow2(q)
}

/// The exponent `q` with `n = 2^q`, if `n` is a power of two.
pub open spec fn qubit_count(n: nat) -> Option<nat> {
    if exists|q: nat| n == pow2(q) {
        Some(choose|q: nat| n == pow2(q))
    } else {
        None
    }
}

/// The qubit length of a matrix: that of its number of rows, if it is a vector.
pub open spec fn spec_qbit_length<T>(v: Seq<Seq<T>>) -> Option<nat> {
    if cols(v) == 1 {
        qubit_count(rows(v))
    } else {
        None
    }
}

/// The weights of the amplitudes of a vector.
pub open spec fn spec_weights<T: Scalar>(v: Seq<Seq<T>>) -> Seq<u64> {
    Seq::new(rows(v), |i: int| v[i][0].spec_weight())
}

/// The sum of the weights.
pub open spec fn total(w: Seq<u64>) -> nat
    decreases w.len(),
{
    if w.len() == 0 {
        0
    } else {
        total(w.drop_last()) + w.last() as nat
    }
}

/// `k` is the outcome of the draw `r`: the running sum of the weights
/// exceeds `r` at `k` for the first time.
pub open spec fn is_pick(w: Seq<u64>, r: nat, k: nat) -> bool {
    k < w.len() && total(w.take(k as int)) <= r < total(w.take(k as int + 1))
}

/// The outcome of the draw `r`.
pub open spec fn spec_pick(w: Seq<u64>, r: nat) -> nat {
    choose|k: nat| is_pick(w, r, k)
}

/// The qubits `from..to` of the basis state `i` of `q` qubits, read as a
/// number. Qubit 0 is the most significant one.
pub open spec fn slice_of(i: nat, q: nat, from: nat, to: nat) -> nat {
    (i / pow2((q - to) as nat)) % pow2((to - from) as nat)
}

/// The sum of the amplitudes of those of the first `n` basis states whose
/// qubits `from..to` read `j`, added up in the order of the basis states.
pub open spec fn slice_sum<T: Scalar>(
    v: Seq<Seq<T>>,
    q: nat,
    from: nat,
    to: nat,
    j: nat,
    n: nat,
) -> T
    decreases n,
{
    if n == 0 {
        T::spec_zero()
    } else if slice_of((n - 1) as nat, q, from, to) == j {
        slice_sum(v, q, from, to, j, (n - 1) as nat).spec_plus(v[n - 1][0])
    } else {
        slice_sum(v, q, from, to, j, (n - 1) as nat)
    }
}

/// The state of the qubits `from..to` alone: for each of their readings the
/// sum of the amplitudes of the basis states with that reading.
pub open spec fn spec_compact<T: Scalar>(v: Seq<Seq<T>>, q: nat, from: nat, to: nat) -> Seq<Seq<T>> {
    tabulate(
        pow2((to - from) as nat),
        1,
        |j: int, c: int| slice_sum(v, q, from, to, j as nat, rows(v)),
    )
}

/// The state after the qubits `from..to` were found to read `outcome`: the
/// amplitudes of all other basis states are zero, the rest is unchanged.
pub open spec fn spec_collapse<T: Scalar>(
    v: Seq<Seq<T>>,
    q: nat,
    from: nat,
    to: nat,
    outcome: nat,
) -> Seq<Seq<T>> {
    tabulate(
        rows(v),
        1,
        |i: int, c: int|
            if slice_of(i as nat, q, from, to) == outcome {
                v[i][0]
            } else {
                T::spec_zero()
            },
    )
}

/// The basis state that a draw falls on: the draw is reduced modulo the sum
/// of the weights. Where all weights are zero, there is nothing to draw
/// from, and the first basis state is taken.
pub open spec fn picked(w: Seq<u64>, draw: nat) -> nat {
    if total(w) == 0 {
        0
    } else {
        spec_pick(w, draw % total(w))
    }
}

/// The outcome of a measurement of `q` qubits whose basis states have the
/// weights `w`, with the given draw.
pub open spec fn measure_of(w: Seq<u64>, q: nat, draw: nat) -> Result<Seq<char>, MeasureError> {
    Ok(binary_digits(picked(w, draw), q))
}

/// The outcome of measuring all qubits of `v` with the given draw.
pub open spec fn spec_measure<T: Scalar>(v: Seq<Seq<T>>, draw: nat) -> Result<
    Seq<char>,
    MeasureError,
> {
    match spec_qbit_length(v) {
        None => Err(MeasureError::NotAQubitVector),
        Some(q) => measure_of(spec_weights(v), q, draw),
    }
}

/// The outcome of measuring the qubits `from..to` of `v` with the given
/// draw: the collapsed state and the reading of those qubits.
pub open spec fn spec_measure_partial<T: Scalar>(v: Seq<Seq<T>>, from: int, to: int, draw: nat)
    -> Result<(Seq<Seq<T>>, Seq<char>), MeasureError> {
    match spec_qbit_length(v) {
        None => Err(MeasureError::NotAQubitVector),
        Some(q) => if !(0 <= from <= to <= q) {
            Err(MeasureError::InvalidRange)
        } else {
            let w = spec_weights(spec_compact(v, q, from as nat, to as nat));
            let k = picked(w, draw);
            Ok((spec_collapse(v, q, from as nat, to as nat, k), binary_digits(k, (to - from) as nat)))
        },
    }
}

/// `w` holds a weight for every amplitude of the vector `v`: a result of
/// the weight of the scalar type.
pub open spec fn weights_hold<T: Scalar>(v: Seq<Seq<T>>, w: Seq<u64>) -> bool {
    w.len() == rows(v) && forall|i: int| 0 <= i < rows(v) ==> is_weight(v[i][0], #[trigger] w[i])
}

/// `r` is an outcome of measuring all qubits of `v` with the given draw,
/// by way of the weights `w` of its amplitudes.
pub open spec fn is_measurement<T: Scalar>(
    v: Seq<Seq<T>>,
    draw: nat,
    w: Seq<u64>,
    r: Result<Seq<char>, MeasureError>,
) -> bool {
    match spec_qbit_length(v) {
        None => r == Err::<Seq<char>, MeasureError>(MeasureError::NotAQubitVector),
        Some(q) => weights_hold(v, w) && r == measure_of(w, q, draw),
    }
}

/// `s` is a result of the sum of the amplitudes of those of the first `n`
/// basis states whose qubits `from..to` read `j`, added up in the order of
/// the basis states, starting at zero.
pub open spec fn is_slice_sum<T: Scalar>(
    v: Seq<Seq<T>>,
    q: nat,
    from: nat,
    to: nat,
    j: nat,
    n: nat,
    s: T,
) -> bool
    decreases n,
{
    if n == 0 {
        is_zero(s)
    } else if slice_of((n - 1) as nat, q, from, to) == j {
        exists|before: T|
            is_slice_sum(v, q, from, to, j, (n - 1) as nat, before) && #[trigger] is_sum(
                before,
                v[n - 1][0],
                s,
            )
    } else {
        is_slice_sum(v, q, from, to, j, (n - 1) as nat, s)
    }
}

/// `part` is a state of the qubits `from..to` of `v` alone: for each of
/// their readings a result of the sum of the amplitudes with that reading.
pub open spec fn is_compact<T: Scalar>(
    v: Seq<Seq<T>>,
    q: nat,
    from: nat,
    to: nat,
    part: Seq<Seq<T>>,
) -> bool {
    has_shape(part, pow2((to - from) as nat), 1) && entries_hold(
        part,
        |j: int, c: int, s: T| is_slice_sum(v, q, from, to, j as nat, rows(v), s),
    )
}

/// `state` is `v` after the qubits `from..to` were found to read `outcome`:
/// the amplitudes of the basis states with that reading are those of `v`,
/// the others are results of zero.
pub open spec fn is_collapse<T: Scalar>(
    v: Seq<Seq<T>>,
    q: nat,
    from: nat,
    to: nat,
    outcome: nat,
    state: Seq<Seq<T>>,
) -> bool {
    has_shape(state, rows(v), 1) && entries_hold(
        state,
        |i: int, c: int, x: T|
            if slice_of(i as nat, q, from, to) == outcome {
                x == v[i][0]
            } else {
                is_zero(x)
            },
    )
}

/// `r` is an outcome of measuring the qubits `from..to` of the state `v` of
/// `q` qubits, given the weights `w` of the readings and the draw.
pub open spec fn partial_of<T: Scalar>(
    v: Seq<Seq<T>>,
    q: nat,
    from: nat,
    to: nat,
    w: Seq<u64>,
    draw: nat,
    r: Result<(Seq<Seq<T>>, Seq<char>), MeasureError>,
) -> bool {
    let k = picked(w, draw);
    match r {
        Ok((state, bits)) => is_collapse(v, q, from, to, k, state) && bits == binary_digits(
            k,
            (to - from) as nat,
        ),
        Err(e) => false,
    }
}

/// `r` is an outcome of measuring the qubits `from..to` of `v` with the
/// given draw, by way of the state `part` of those qubits alone and the
/// weights `w` of its amplitudes.
pub open spec fn is_partial_measurement<T: Scalar>(
    v: Seq<Seq<T>>,
    from: int,
    to: int,
    draw: nat,
    part: Seq<Seq<T>>,
    w: Seq<u64>,
    r: Result<(Seq<Seq<T>>, Seq<char>), MeasureError>,
) -> bool {
    match spec_qbit_length(v) {
        None => r == Err::<(Seq<Seq<T>>, Seq<char>), MeasureError>(MeasureError::NotAQubitVector),
        Some(q) => if !(0 <= from <= to <= q) {
            r == Err::<(Seq<Seq<T>>, Seq<char>), MeasureError>(MeasureError::InvalidRange)
        } else {
            is_compact(v, q, from as nat, to as nat, part) && weights_hold(part, w) && partial_of(
                v,
                q,
                from as nat,
                to as nat,
                w,
                draw,
                r,
            )
        },
    }
}

/// For an exact scalar type the weights of the amplitudes are the squared
/// moduli.
pub proof fn lemma_weights_exact<T: Scalar>(v: Seq<Seq<T>>, w: Seq<u64>)
    requires
        T::exact(),
        weights_hold(v, w),
    ensures
        w == spec_weights(v),
{
    assert(w =~= spec_weights(v));
}

/// For an exact scalar type a result of a sum of amplitudes is the sum.
pub proof fn lemma_slice_sum_exact<T: Scalar>(
    v: Seq<Seq<T>>,
    q: nat,
    from: nat,
    to: nat,
    j: nat,
    n: nat,
    s: T,
)
    requires
        T::exact(),
        is_slice_sum(v, q, from, to, j, n, s),
    ensures
        s == slice_sum(v, q, from, to, j, n),
    decreases n,
{
    if n > 0 {
        if slice_of((n - 1) as nat, q, from, to) == j {
            let before = choose|before: T|
                is_slice_sum(v, q, from, to, j, (n - 1) as nat, before) && #[trigger] is_sum(
                    before,
                    v[n - 1][0],
                    s,
                );
            lemma_slice_sum_exact(v, q, from, to, j, (n - 1) as nat, before);
        } else {
            lemma_slice_sum_exact(v, q, from, to, j, (n - 1) as nat, s);
        }
    }
}

/// For an exact scalar type the state of some qubits alone is determined.
pub proof fn lemma_compact_exact<T: Scalar>(
    v: Seq<Seq<T>>,
    q: nat,
    from: nat,
    to: nat,
    part: Seq<Seq<T>>,
)
    requires
        T::exact(),
        from <= to <= q,
        is_compact(v, q, from, to, part),
    ensures
        part == spec_compact(v, q, from, to),
{
    let want = spec_compact(v, q, from, to);
    vstd::arithmetic::power2::lemma_pow2_pos((to - from) as nat);
    assert forall|j: int, c: int| 0 <= j < rows(part) && 0 <= c < cols(part) implies part[j][c]
        == want[j][c] by {
        lemma_slice_sum_exact(v, q, from, to, j as nat, rows(v), part[j][c]);
    }
    crate::algebra::lemma_matrix_equal(part, want);
}

/// For an exact scalar type the collapsed state is determined.
pub proof fn lemma_collapse_exact<T: Scalar>(
    v: Seq<Seq<T>>,
    q: nat,
    from: nat,
    to: nat,
    outcome: nat,
    state: Seq<Seq<T>>,
)
    requires
        T::exact(),
        rows(v) > 0,
        is_collapse(v, q, from, to, outcome, state),
    ensures
        state == spec_collapse(v, q, from, to, outcome),
{
    let want = spec_collapse(v, q, from, to, outcome);
    assert forall|i: int, c: int| 0 <= i < rows(state) && 0 <= c < cols(state) implies state[i][c]
        == want[i][c] by {}
    crate::algebra::lemma_matrix_equal(state, want);
}

/// The outcome of a measurement of all qubits, with the digits as characters.
pub open spec fn measure_view(r: Result<String, MeasureError>) -> Result<Seq<char>, MeasureError> {
    match r {
        Ok(s) => Ok(s@),
        Err(e) => Err(e),
    }
}

/// The outcome of a measurement of some qubits, with the state as a matrix
/// of scalars and the digits as characters.
pub open spec fn partial_view<T>(r: Result<(Matrix<T>, String), MeasureError>) -> Result<
    (Seq<Seq<T>>, Seq<char>),
    MeasureError,
> {
    match r {
        Ok((state, bits)) => Ok((state@, bits@)),
        Err(e) => Err(e),
    }
}

/// A number is a power of two in one way only.
pub proof fn lemma_qubit_count(n: nat, q: nat)
    requires
        n == pow2(q),
    ensures
        qubit_count(n) == Some(q),
{
    let c = choose|k: nat| n == pow2(k);
    if c < q {
        vstd::arithmetic::power2::lemma_pow2_strictly_increases(c, q);
    } else if q < c {
        vstd::arithmetic::power2::lemma_pow2_strictly_increases(q, c);
    }
}

/// The running sum of weights does not fall.
pub proof fn lemma_total_grows(w: Seq<u64>, a: int, b: int)
    requires
        0 <= a <= b <= w.len(),
    ensures
        total(w.take(a)) <= total(w.take(b)),
    decreases b - a,
{
    if a < b {
        lemma_total_grows(w, a, b - 1);
        assert(w.take(b).drop_last() =~= w.take(b - 1));
    }
}

/// A draw has one outcome only.
pub proof fn lemma_pick_unique(w: Seq<u64>, r: nat, k1: nat, k2: nat)
    requires
        is_pick(w, r, k1),
        is_pick(w, r, k2),
    ensures
        k1 == k2,
{
    if k1 < k2 {
        lemma_total_grows(w, k1 as int + 1, k2 as int);
    } else if k2 < k1 {
        lemma_total_grows(w, k2 as int + 1, k1 as int);
    }
}

/// The draws that give the outcome `k` are the `w[k]` numbers that follow
/// the sum of the weights before `k`: of all draws below the sum of the
/// weights, the share that gives `k` is the weight of `k` over that sum.
pub proof fn lemma_pick_draws(w: Seq<u64>, r: nat, k: nat)
    requires
        k < w.len(),
    ensures
        is_pick(w, r, k) <==> total(w.take(k as int)) <= r < total(w.take(k as int)) + w[k as int],
        total(w.take(k as int)) + w[k as int] <= total(w),
{
    assert(w.take(k as int + 1).drop_last() =~= w.take(k as int));
    lemma_total_grows(w, k as int + 1, w.len() as int);
    assert(w.take(w.len() as int) =~= w);
}

/// The outcome of a draw is a basis state of weight above zero.
pub proof fn lemma_pick_has_weight(w: Seq<u64>, r: nat, k: nat)
    requires
        is_pick(w, r, k),
    ensures
        w[k as int] > 0,
{
    assert(w.take(k as int + 1).drop_last() =~= w.take(k as int));
}

/// The sum of the weights of the first `n` basis states.
pub open spec fn weight_sum<T: Scalar>(v: Seq<Seq<T>>, n: nat) -> nat
    decreases n,
{
    if n == 0 {
        0
    } else {
        weight_sum(v, (n - 1) as nat) + v[n - 1][0].spec_weight() as nat
    }
}

/// The numerators of the probabilities of all basis states add up to their
/// common denominator: the probabilities add up to one.
pub proof fn lemma_probabilities_add_up<T: Scalar>(v: Seq<Seq<T>>)
    ensures
        weight_sum(v, rows(v)) == total(spec_weights(v)),
{
    lemma_weight_sum(v, rows(v));
    assert(spec_weights(v).take(rows(v) as int) =~= spec_weights(v));
}

proof fn lemma_weight_sum<T: Scalar>(v: Seq<Seq<T>>, n: nat)
    requires
        n <= rows(v),
    ensures
        weight_sum(v, n) == total(spec_weights(v).take(n as int)),
    decreases n,
{
    if n > 0 {
        lemma_weight_sum(v, (n - 1) as nat);
        assert(spec_weights(v).take(n as int).drop_last() =~= spec_weights(v).take(n - 1));
    }
}

/// The number of qubits of a state: the exponent `q` with `2^q` rows, or
/// `None` if the matrix is no vector or its length no power of two.
pub fn qbit_length<T: Scalar>(m: &Matrix<T>) -> (r: Option<usize>)
    requires
        m.wf(),
    ensures
        match r {
            Some(q) => spec_qbit_length(m@) == Some(q as nat) && is_qubit_vector(m@, q as nat) && q
                < usize::BITS,
            None => spec_qbit_length(m@).is_none(),
        },
{
    let (n, c) = m.size();
    if c != 1 {
        return None;
    }
    let mut p: u128 = 1;
    let mut q: usize = 0;
    proof {
        vstd::arithmetic::power2::lemma2_to64();
    }
    while p < n as u128
        invariant
            p == pow2(q as nat),
            p >= 1,
            q <= 64,
            n <= usize::MAX,
            forall|k: nat| k < q ==> pow2(k) < n,
        decreases 64 - q,
    {
        proof {
            vstd::arithmetic::power2::lemma_pow2_unfold((q + 1) as nat);
            if q >= 64 {
                vstd::arithmetic::power2::lemma2_to64_rest();
                assert(false);
            }
        }
        p = p * 2;
        q = q + 1;
    }
    if p == n as u128 {
        proof {
            lemma_qubit_count(n as nat, q as nat);
            lemma_qubits_fit(m@, q as nat);
        }
        Some(q)
    } else {
        proof {
            assert forall|k: nat| n != pow2(k) by {
                if k > q {
                    vstd::arithmetic::power2::lemma_pow2_strictly_increases(q as nat, k);
                }
            }
        }
        None
    }
}

/// The weights of the amplitudes of a vector.
pub fn weights_of<T: Scalar>(m: &Matrix<T>) -> (w: Vec<u64>)
    requires
        m.wf(),
        m.spec_cols() == 1,
    ensures
        weights_hold(m@, w@),
        T::exact() ==> w@ == spec_weights(m@),
{
    let (n, c) = m.size();
    let mut w: Vec<u64> = Vec::new();
    let mut i: usize = 0;
    while i < n
        invariant
            i <= n,
            m.wf(),
            m.spec_cols() == 1,
            n == m.spec_rows(),
            w@.len() == i,
            forall|p: int| 0 <= p < i ==> is_weight(m@[p][0], #[trigger] w@[p]),
        decreases n - i,
    {
        w.push(m.at(i, 0).weight());
        i = i + 1;
    }
    proof {
        if T::exact() {
            lemma_weights_exact(m@, w@);
        }
    }
    w
}

/// The sum of the weights.
pub fn total_weight(w: &Vec<u64>) -> (t: u128)
    ensures
        t == total(w@),
{
    let mut t: u128 = 0;
    let mut i: usize = 0;
    proof {
        assert(w@.take(0).len() == 0);
    }
    while i < w.len()
        invariant
            i <= w.len(),
            t == total(w@.take(i as int)),
            t <= i * 0xffff_ffff_ffff_ffff,
        decreases w.len() - i,
    {
        proof {
            assert(w@.take(i + 1).drop_last() =~= w@.take(i as int));
            assert(i * 0xffff_ffff_ffff_ffff + 0xffff_ffff_ffff_ffff <= 0xffff_ffff_ffff_ffff
                * 0xffff_ffff_ffff_ffff) by (nonlinear_arith)
                requires
                    i < 0xffff_ffff_ffff_ffff,
            ;
        }
        t = t + w[i] as u128;
        i = i + 1;
    }
    proof {
        assert(w@.take(w@.len() as int) =~= w@);
    }
    t
}

/// The outcome of a draw: the first basis state at which the running sum of
/// the weights exceeds the draw.
pub fn outcome_index(w: &Vec<u64>, draw: u128) -> (k: usize)
    requires
        draw < total(w@),
    ensures
        is_pick(w@, draw as nat, k as nat),
        k == spec_pick(w@, draw as nat),
        w@[k as int] > 0,
{
    let mut seen: u128 = 0;
    let mut k: usize = 0;
    proof {
        assert(w@.take(0).len() == 0);
    }
    while k < w.len()
        invariant
            k <= w.len(),
            seen == total(w@.take(k as int)),
            seen <= draw,
            draw < total(w@),
        decreases w.len() - k,
    {
        proof {
            assert(w@.take(k + 1).drop_last() =~= w@.take(k as int));
        }
        if draw - seen < w[k] as u128 {
            proof {
                assert(is_pick(w@, draw as nat, k as nat));
                lemma_pick_unique(w@, draw as nat, k as nat, spec_pick(w@, draw as nat));
                lemma_pick_has_weight(w@, draw as nat, k as nat);
            }
            return k;
        }
        seen = seen + w[k] as u128;
        k = k + 1;
    }
    proof {
        assert(w@.take(w@.len() as int) =~= w@);
        assert(false);
    }
    0
}

/// The probability of the basis state `idx` as a fraction: the weight of its
/// amplitude over the sum of all weights.
pub fn prob_at<T: Scalar>(m: &Matrix<T>, idx: usize) -> (p: (u64, u128))
    requires
        m.wf(),
        m.spec_cols() == 1,
        idx < m.spec_rows(),
    ensures
        exists|w: Seq<u64>| #[trigger]
            weights_hold(m@, w) && p.0 == w[idx as int] && p.1 == total(w),
        T::exact() ==> p.0 == m@[idx as int][0].spec_weight(),
        T::exact() ==> p.1 == total(spec_weights(m@)),
        p.0 <= p.1,
{
    let w = weights_of(m);
    let t = total_weight(&w);
    proof {
        lemma_total_grows(w@, idx + 1, w@.len() as int);
        assert(w@.take(w@.len() as int) =~= w@);
        assert(w@.take(idx + 1).drop_last() =~= w@.take(idx as int));
    }
    (w[idx], t)
}

/// The basis state that the given draw falls on; the first one where all
/// weights are zero.
fn pick_with(w: &Vec<u64>, draw: u128) -> (k: usize)
    ensures
        k == picked(w@, draw as nat),
        total(w@) > 0 ==> k < w@.len(),
{
    let t = total_weight(w);
    if t == 0 {
        return 0;
    }
    outcome_index(w, draw % t)
}

/// The basis state that a draw at random falls on; the first one where all
/// weights are zero.
fn pick_at_random(w: &Vec<u64>) -> (r: (usize, Ghost<nat>))
    ensures
        r.0 == picked(w@, r.1@),
        total(w@) > 0 ==> r.0 < w@.len(),
{
    let t = total_weight(w);
    if t == 0 {
        return (0, Ghost(0));
    }
    let draw = crate::chance::random_in_range(0, t);
    proof {
        vstd::arithmetic::div_mod::lemma_small_mod(draw as nat, t as nat);
    }
    (outcome_index(w, draw), Ghost(draw as nat))
}

/// The weights of all basis states and their sum. The probability of a
/// basis state is its weight over the sum of the weights: so the
/// probabilities of one reading of a state add up to one, whatever the
/// scalar type, and none is above one.
pub fn probabilities<T: Scalar>(m: &Matrix<T>) -> (p: (Vec<u64>, u128))
    requires
        m.wf(),
        m.spec_cols() == 1,
    ensures
        weights_hold(m@, p.0@),
        T::exact() ==> p.0@ == spec_weights(m@),
        p.1 == total(p.0@),
        forall|k: int| 0 <= k < p.0@.len() ==> #[trigger] p.0@[k] <= p.1,
{
    let w = weights_of(m);
    let t = total_weight(&w);
    proof {
        assert(w@.take(w@.len() as int) =~= w@);
        assert forall|k: int| 0 <= k < w@.len() implies #[trigger] w@[k] <= t by {
            lemma_total_grows(w@, k + 1, w@.len() as int);
            assert(w@.take(k + 1).drop_last() =~= w@.take(k));
        }
    }
    (w, t)
}

/// The outcome of a measurement of `q` qubits whose basis states have the
/// weights `w`, with the given draw.
fn measure_weights(w: &Vec<u64>, q: usize, draw: u128) -> (r: Result<String, MeasureError>)
    requires
        q <= usize::BITS,
    ensures
        measure_view(r) == measure_of(w@, q as nat, draw as nat),
{
    let k = pick_with(w, draw);
    Ok(crate::util::index_to_binary_string(k, q))
}

/// The outcome of a measurement of `q` qubits whose basis states have the
/// weights `w`, with a draw at random.
fn measure_weights_at_random(w: &Vec<u64>, q: usize) -> (r: (Result<String, MeasureError>, Ghost<nat>))
    requires
        q <= usize::BITS,
    ensures
        measure_view(r.0) == measure_of(w@, q as nat, r.1@),
{
    let (k, Ghost(draw)) = pick_at_random(w);
    (Ok(crate::util::index_to_binary_string(k, q)), Ghost(draw))
}

/// Measures all qubits with the given draw, which is reduced modulo the sum
/// of the weights. The outcome is the basis state that the draw falls on,
/// written with one binary digit for each qubit, the first qubit first.
pub fn measure_vec_with<T: Scalar>(m: &Matrix<T>, draw: u128) -> (r: Result<String, MeasureError>)
    requires
        m.wf(),
    ensures
        exists|w: Seq<u64>| #[trigger] is_measurement(m@, draw as nat, w, measure_view(r)),
        T::exact() ==> measure_view(r) == spec_measure(m@, draw as nat),
        r matches Ok(s) ==> spec_qbit_length(m@) == Some(s@.len()),
{
    let q = match qbit_length(m) {
        Some(q) => q,
        None => {
            assert(is_measurement(
                m@,
                draw as nat,
                Seq::<u64>::empty(),
                Err::<Seq<char>, MeasureError>(MeasureError::NotAQubitVector),
            ));
            return Err(MeasureError::NotAQubitVector);
        },
    };
    let w = weights_of(m);
    let r = measure_weights(&w, q, draw);
    assert(is_measurement(m@, draw as nat, w@, measure_view(r)));
    r
}

/// A vector that is held in memory has fewer qubits than the machine word has bits.
pub proof fn lemma_qubits_fit<T>(v: Seq<Seq<T>>, q: nat)
    requires
        is_qubit_vector(v, q),
        rows(v) <= usize::MAX,
    ensures
        q < usize::BITS,
{
    vstd::arithmetic::power2::lemma2_to64();
    vstd::arithmetic::power2::lemma2_to64_rest();
    if q >= usize::BITS {
        if q > usize::BITS {
            vstd::arithmetic::power2::lemma_pow2_strictly_increases(usize::BITS as nat, q);
        }
        assert(usize::BITS == 32 || usize::BITS == 64);
        assert(false);
    }
}

/// Measures all qubits: draws a basis state with a chance in proportion to
/// the weight of its amplitude, and writes it with one binary digit for
/// each qubit, the first qubit first.
pub fn measure_vec<T: Scalar>(m: &Matrix<T>) -> (r: Result<String, MeasureError>)
    requires
        m.wf(),
    ensures
        exists|draw: nat, w: Seq<u64>| #[trigger] is_measurement(m@, draw, w, measure_view(r)),
        T::exact() ==> exists|draw: nat| measure_view(r) == #[trigger] spec_measure(m@, draw),
        r matches Ok(s) ==> spec_qbit_length(m@) == Some(s@.len()),
{
    let q = match qbit_length(m) {
        Some(q) => q,
        None => {
            assert(is_measurement(
                m@,
                0,
                Seq::<u64>::empty(),
                Err::<Seq<char>, MeasureError>(MeasureError::NotAQubitVector),
            ));
            assert(T::exact() ==> spec_measure(m@, 0) == Err::<Seq<char>, MeasureError>(
                MeasureError::NotAQubitVector,
            ));
            return Err(MeasureError::NotAQubitVector);
        },
    };
    let w = weights_of(m);
    let (r, Ghost(draw)) = measure_weights_at_random(&w, q);
    assert(is_measurement(m@, draw, w@, measure_view(r)));
    assert(T::exact() ==> measure_view(r) == spec_measure(m@, draw));
    r
}

/// The reading of the qubits of a basis state that lie `low` places above
/// the last one and span `span` readings.
fn slice_index(i: usize, low: usize, span: usize) -> (j: usize)
    requires
        low > 0,
        span > 0,
    ensures
        j == (i / low) % span,
        j < span,
{
    (i / low) % span
}

/// The sum of the amplitudes of the basis states whose selected qubits read `j`.
fn slice_amplitude<T: Scalar>(
    m: &Matrix<T>,
    low: usize,
    span: usize,
    j: usize,
    Ghost(q): Ghost<nat>,
    Ghost(from): Ghost<nat>,
    Ghost(to): Ghost<nat>,
) -> (v: T)
    requires
        m.wf(),
        m.spec_cols() == 1,
        from <= to <= q,
        low == pow2((q - to) as nat),
        span == pow2((to - from) as nat),
    ensures
        is_slice_sum(m@, q, from, to, j as nat, m.spec_rows(), v),
{
    let (n, c) = m.size();
    let mut acc = T::zero();
    let mut i: usize = 0;
    proof {
        vstd::arithmetic::power2::lemma_pow2_pos((q - to) as nat);
        vstd::arithmetic::power2::lemma_pow2_pos((to - from) as nat);
    }
    while i < n
        invariant
            i <= n,
            m.wf(),
            m.spec_cols() == 1,
            n == m.spec_rows(),
            from <= to <= q,
            low == pow2((q - to) as nat),
            span == pow2((to - from) as nat),
            low > 0,
            span > 0,
            is_slice_sum(m@, q, from, to, j as nat, i as nat, acc),
        decreases n - i,
    {
        if slice_index(i, low, span) == j {
            let next = acc.plus(m.at(i, 0));
            assert(is_slice_sum(m@, q, from, to, j as nat, (i + 1) as nat, next)) by {
                assert(is_sum(acc, m@[i as int][0], next));
            }
            acc = next;
        }
        i = i + 1;
    }
    acc
}

/// The state of the qubits `from..to` alone.
fn compact<T: Scalar>(
    m: &Matrix<T>,
    low: usize,
    span: usize,
    Ghost(q): Ghost<nat>,
    Ghost(from): Ghost<nat>,
    Ghost(to): Ghost<nat>,
) -> (r: Matrix<T>)
    requires
        m.wf(),
        m.spec_cols() == 1,
        from <= to <= q,
        low == pow2((q - to) as nat),
        span == pow2((to - from) as nat),
    ensures
        is_compact(m@, q, from, to, r@),
        T::exact() ==> r@ == spec_compact(m@, q, from, to),
{
    let mut data: Vec<Vec<T>> = Vec::new();
    let mut j: usize = 0;
    proof {
        vstd::arithmetic::power2::lemma_pow2_pos((to - from) as nat);
    }
    while j < span
        invariant
            j <= span,
            span > 0,
            m.wf(),
            m.spec_cols() == 1,
            from <= to <= q,
            low == pow2((q - to) as nat),
            span == pow2((to - from) as nat),
            data@.len() == j,
            forall|p: int| 0 <= p < j ==> (#[trigger] data@[p])@.len() == 1,
            forall|p: int|
                0 <= p < j ==> is_slice_sum(
                    m@,
                    q,
                    from,
                    to,
                    p as nat,
                    m.spec_rows(),
                    #[trigger] data@[p]@[0],
                ),
        decreases span - j,
    {
        let mut line: Vec<T> = Vec::new();
        line.push(slice_amplitude(m, low, span, j, Ghost(q), Ghost(from), Ghost(to)));
        data.push(line);
        j = j + 1;
    }
    let r = Matrix { data };
    proof {
        assert(is_compact(m@, q, from, to, r@)) by {
            assert forall|p: int, c: int| 0 <= p < rows(r@) && 0 <= c < cols(r@) implies is_slice_sum(
                m@,
                q,
                from,
                to,
                p as nat,
                rows(m@),
                #[trigger] r@[p][c],
            ) by {
                assert(r@[p][c] == data@[p]@[0]);
            }
        }
        if T::exact() {
            lemma_compact_exact(m@, q, from, to, r@);
        }
    }
    r
}

/// The state after the selected qubits were found to read `outcome`.
fn collapse<T: Scalar>(
    m: &Matrix<T>,
    low: usize,
    span: usize,
    outcome: usize,
    Ghost(q): Ghost<nat>,
    Ghost(from): Ghost<nat>,
    Ghost(to): Ghost<nat>,
) -> (r: Matrix<T>)
    requires
        m.wf(),
        m.spec_cols() == 1,
        from <= to <= q,
        low == pow2((q - to) as nat),
        span == pow2((to - from) as nat),
    ensures
        is_collapse(m@, q, from, to, outcome as nat, r@),
        T::exact() ==> r@ == spec_collapse(m@, q, from, to, outcome as nat),
{
    let (n, c) = m.size();
    let mut data: Vec<Vec<T>> = Vec::new();
    let mut i: usize = 0;
    proof {
        vstd::arithmetic::power2::lemma_pow2_pos((q - to) as nat);
        vstd::arithmetic::power2::lemma_pow2_pos((to - from) as nat);
    }
    while i < n
        invariant
            i <= n,
            m.wf(),
            m.spec_cols() == 1,
            n == m.spec_rows(),
            from <= to <= q,
            low == pow2((q - to) as nat),
            span == pow2((to - from) as nat),
            low > 0,
            span > 0,
            data@.len() == i,
            forall|p: int| 0 <= p < i ==> (#[trigger] data@[p])@.len() == 1,
            forall|p: int|
                0 <= p < i ==> (if slice_of(p as nat, q, from, to) == outcome {
                    (#[trigger] data@[p])@[0] == m@[p][0]
                } else {
                    is_zero(data@[p]@[0])
                }),
        decreases n - i,
    {
        let mut line: Vec<T> = Vec::new();
        if slice_index(i, low, span) == outcome {
            line.push(m.at(i, 0));
        } else {
            line.push(T::zero());
        }
        data.push(line);
        i = i + 1;
    }
    let r = Matrix { data };
    proof {
        assert(is_collapse(m@, q, from, to, outcome as nat, r@)) by {
            assert forall|p: int, c: int| 0 <= p < rows(r@) && 0 <= c < cols(r@) implies (if slice_of(
                p as nat,
                q,
                from,
                to,
            ) == outcome {
                (#[trigger] r@[p][c]) == m@[p][0]
            } else {
                is_zero(r@[p][c])
            }) by {
                assert(r@[p][c] == data@[p]@[0]);
            }
        }
        if T::exact() {
            lemma_collapse_exact(m@, q, from, to, outcome as nat, r@);
        }
    }
    r
}

/// What the two ways of measuring a part of a register have in common: the
/// checks, the state of the selected qubits and its weights.
fn prepare_partial<T: Scalar>(m: &Matrix<T>, from: i32, to: i32) -> (r: Result<
    (usize, usize, Vec<u64>, Ghost<Seq<Seq<T>>>),
    MeasureError,
>)
    requires
        m.wf(),
    ensures
        match r {
            Ok((low, span, w, part)) => {
                &&& spec_qbit_length(m@) matches Some(q)
                &&& q < usize::BITS
                &&& 0 <= from <= to <= q
                &&& low == pow2((q - to) as nat)
                &&& span == pow2((to - from) as nat)
                &&& is_compact(m@, q, from as nat, to as nat, part@)
                &&& weights_hold(part@, w@)
                &&& T::exact() ==> w@ == spec_weights(spec_compact(m@, q, from as nat, to as nat))
            },
            Err(e) => match spec_qbit_length(m@) {
                None => e == MeasureError::NotAQubitVector,
                Some(q) => e == MeasureError::InvalidRange && !(0 <= from <= to <= q),
            },
        },
{
    let q = match qbit_length(m) {
        Some(q) => q,
        None => {
            return Err(MeasureError::NotAQubitVector);
        },
    };
    if from < 0 || to < from || to as usize > q {
        return Err(MeasureError::InvalidRange);
    }
    let lo: usize = from as usize;
    let hi: usize = to as usize;
    proof {
        vstd::bits::lemma_usize_pow2_no_overflow((q - hi) as nat);
        vstd::bits::lemma_usize_pow2_no_overflow((hi - lo) as nat);
    }
    let low = crate::util::power_of_two(q - hi);
    let span = crate::util::power_of_two(hi - lo);
    let part = compact(m, low, span, Ghost(q as nat), Ghost(lo as nat), Ghost(hi as nat));
    let w = weights_of(&part);
    Ok((low, span, w, Ghost(part@)))
}

/// Measures the qubits `from..to` with the given draw, which is reduced
/// modulo the sum of the weights.
///
/// The amplitudes of the basis states are added up by the reading of those
/// qubits, and the reading is drawn from these sums as in a measurement of
/// all qubits. The result is the collapsed state, in which every basis
/// state with another reading has the amplitude zero, and the reading in
/// binary digits. The collapsed state is not normalised.
pub fn measure_partial_vec_with<T: Scalar>(m: &Matrix<T>, from: i32, to: i32, draw: u128) -> (r:
    Result<(Matrix<T>, String), MeasureError>)
    requires
        m.wf(),
    ensures
        exists|part: Seq<Seq<T>>, w: Seq<u64>| #[trigger]
            is_partial_measurement(m@, from as int, to as int, draw as nat, part, w, partial_view(r)),
        T::exact() ==> partial_view(r) == spec_measure_partial(
            m@,
            from as int,
            to as int,
            draw as nat,
        ),
        r matches Ok((state, bits)) ==> has_shape(state@, m.spec_rows(), 1) && bits@.len() == to
            - from,
{
    let (low, span, w, Ghost(part)) = match prepare_partial(m, from, to) {
        Ok(parts) => parts,
        Err(e) => {
            assert(is_partial_measurement(
                m@,
                from as int,
                to as int,
                draw as nat,
                Seq::<Seq<T>>::empty(),
                Seq::<u64>::empty(),
                Err::<(Seq<Seq<T>>, Seq<char>), MeasureError>(e),
            ));
            return Err(e);
        },
    };
    let ghost q = spec_qbit_length(m@).unwrap();
    let k = pick_with(&w, draw);
    let state = collapse(m, low, span, k, Ghost(q), Ghost(from as nat), Ghost(to as nat));
    let bits = crate::util::index_to_binary_string(k, (to - from) as usize);
    assert(is_partial_measurement(
        m@,
        from as int,
        to as int,
        draw as nat,
        part,
        w@,
        Ok::<(Seq<Seq<T>>, Seq<char>), MeasureError>((state@, bits@)),
    ));
    Ok((state, bits))
}

/// Measures the qubits `from..to`: draws their reading with a chance in
/// proportion to the weight of the sum of the amplitudes with that reading,
/// and collapses the state onto it.
pub fn measure_partial_vec<T: Scalar>(m: &Matrix<T>, from: i32, to: i32) -> (r: Result<
    (Matrix<T>, String),
    MeasureError,
>)
    requires
        m.wf(),
    ensures
        exists|draw: nat, part: Seq<Seq<T>>, w: Seq<u64>| #[trigger]
            is_partial_measurement(m@, from as int, to as int, draw, part, w, partial_view(r)),
        T::exact() ==> exists|draw: nat|
            partial_view(r) == #[trigger] spec_measure_partial(m@, from as int, to as int, draw),
        r matches Ok((state, bits)) ==> has_shape(state@, m.spec_rows(), 1) && bits@.len() == to
            - from,
{
    let (low, span, w, Ghost(part)) = match prepare_partial(m, from, to) {
        Ok(parts) => parts,
        Err(e) => {
            assert(is_partial_measurement(
                m@,
                from as int,
                to as int,
                0,
                Seq::<Seq<T>>::empty(),
                Seq::<u64>::empty(),
                Err::<(Seq<Seq<T>>, Seq<char>), MeasureError>(e),
            ));
            assert(T::exact() ==> spec_measure_partial(m@, from as int, to as int, 0) == Err::<
                (Seq<Seq<T>>, Seq<char>),
                MeasureError,
            >(e));
            return Err(e);
        },
    };
    let ghost q = spec_qbit_length(m@).unwrap();
    let (k, Ghost(taken)) = pick_at_random(&w);
    let ghost draw = taken;
    let state = collapse(m, low, span, k, Ghost(q), Ghost(from as nat), Ghost(to as nat));
    let bits = crate::util::index_to_binary_string(k, (to - from) as usize);
    assert(is_partial_measurement(
        m@,
        from as int,
        to as int,
        draw as nat,
        part,
        w@,
        Ok::<(Seq<Seq<T>>, Seq<char>), MeasureError>((state@, bits@)),
    ));
    assert(T::exact() ==> spec_measure_partial(m@, from as int, to as int, draw as nat) == Ok::<
        (Seq<Seq<T>>, Seq<char>),
        MeasureError,
    >((state@, bits@)));
    Ok((state, bits))
}

/// The amplitude of the transition from the state `from` to the state `to`:
/// the one entry of the product of the adjoint of `to` and `from`.
pub open spec fn spec_transition_amplitude<T: Scalar>(from: Seq<Seq<T>>, to: Seq<Seq<T>>) -> T {
    crate::matrix::spec_multiply(crate::matrix::spec_adjoint(to), from)[0][0]
}

/// The mean of the observable `t` in the state `ket`: the amplitude of the
/// transition from `t ket` to `ket`.
pub open spec fn spec_mean_transition<T: Scalar>(ket: Seq<Seq<T>>, t: Seq<Seq<T>>) -> T {
    spec_transition_amplitude(crate::matrix::spec_multiply(t, ket), ket)
}

/// The observable `t` less its mean `mu` times the identity.
pub open spec fn spec_centered<T: Scalar>(t: Seq<Seq<T>>, mu: T) -> Seq<Seq<T>> {
    crate::matrix::spec_sub(
        t,
        crate::matrix::spec_scalar_mul(crate::matrix::spec_identity::<T>(rows(t)), mu),
    )
}

/// The variance of the observable `t` in the state `ket`: the mean of the
/// square of `t` less its mean.
pub open spec fn spec_variance_transition<T: Scalar>(ket: Seq<Seq<T>>, t: Seq<Seq<T>>) -> T {
    let d = spec_centered(t, spec_mean_transition(ket, t));
    spec_mean_transition(ket, crate::matrix::spec_multiply(d, d))
}

/// `r` is a transition amplitude from `from` to `to`: the one entry of a
/// product of an adjoint of `to` and `from`.
pub open spec fn is_transition_amplitude<T: Scalar>(from: Seq<Seq<T>>, to: Seq<Seq<T>>, r: T) -> bool {
    exists|bra: Seq<Seq<T>>, product: Seq<Seq<T>>|
        crate::matrix::is_adjoint_of(to, bra) && #[trigger] crate::matrix::is_product_of(
            bra,
            from,
            product,
        ) && r == product[0][0]
}

/// `r` is a mean of the observable `t` in the state `ket`: a transition
/// amplitude from a product of `t` and `ket` to `ket`.
pub open spec fn is_mean_transition<T: Scalar>(ket: Seq<Seq<T>>, t: Seq<Seq<T>>, r: T) -> bool {
    exists|moved: Seq<Seq<T>>| #[trigger]
        crate::matrix::is_product_of(t, ket, moved) && is_transition_amplitude(moved, ket, r)
}

/// `centered` is the observable `t` less `mu` times the identity, by way
/// of the identity `id` and its multiple `shift`.
pub open spec fn centered_from<T: Scalar>(
    t: Seq<Seq<T>>,
    mu: T,
    id: Seq<Seq<T>>,
    shift: Seq<Seq<T>>,
    centered: Seq<Seq<T>>,
) -> bool {
    &&& crate::matrix::is_identity_of(rows(t), id)
    &&& has_shape(shift, rows(t), rows(t))
    &&& entries_hold(shift, |i: int, j: int, v: T| crate::complex::is_product(id[i][j], mu, v))
    &&& has_shape(centered, rows(t), rows(t))
    &&& entries_hold(
        centered,
        |i: int, j: int, v: T| crate::complex::is_difference(t[i][j], shift[i][j], v),
    )
}

/// `r` is a variance of the observable `t` in the state `ket`, by way of
/// the mean `mu`, the observable less its mean and the square of that.
pub open spec fn variance_from<T: Scalar>(
    ket: Seq<Seq<T>>,
    t: Seq<Seq<T>>,
    mu: T,
    id: Seq<Seq<T>>,
    shift: Seq<Seq<T>>,
    centered: Seq<Seq<T>>,
    squared: Seq<Seq<T>>,
    r: T,
) -> bool {
    &&& is_mean_transition(ket, t, mu)
    &&& centered_from(t, mu, id, shift, centered)
    &&& crate::matrix::is_product_of(centered, centered, squared)
    &&& is_mean_transition(ket, squared, r)
}

/// `r` is a variance of the observable `t` in the state `ket`: a mean of
/// the square of `t` less its mean.
pub open spec fn is_variance_transition<T: Scalar>(ket: Seq<Seq<T>>, t: Seq<Seq<T>>, r: T) -> bool {
    exists|mu: T, id: Seq<Seq<T>>, shift: Seq<Seq<T>>, centered: Seq<Seq<T>>, squared: Seq<Seq<T>>|
     #[trigger] variance_from(ket, t, mu, id, shift, centered, squared, r)
}

/// The amplitude of the transition from the state `from` to the state `to`.
pub fn transition_amplitude<T: Scalar>(from: &Matrix<T>, to: &Matrix<T>) -> (r: T)
    requires
        from.wf(),
        to.wf(),
        from.spec_cols() == 1,
        to.spec_cols() == 1,
        from.spec_rows() == to.spec_rows(),
    ensures
        is_transition_amplitude(from@, to@, r),
        T::exact() ==> r == spec_transition_amplitude(from@, to@),
{
    let bra = to.adjoint();
    let product = bra.product(from);
    assert(crate::matrix::is_product_of(bra@, from@, product@));
    product.at(0, 0)
}

/// The state `t v` that the operator `t` makes of the state `v`.
pub fn apply_transformation<T: Scalar>(v: &Matrix<T>, t: &Matrix<T>) -> (r: Matrix<T>)
    requires
        v.wf(),
        t.wf(),
        t.spec_rows() == t.spec_cols(),
        t.spec_rows() == v.spec_rows(),
    ensures
        crate::matrix::is_product_of(t@, v@, r@),
        crate::matrix::agrees(r@, crate::matrix::spec_multiply(t@, v@)),
{
    t.product(v)
}

/// The mean of the observable `t` in the state `ket`.
pub fn mean_transition<T: Scalar>(ket: &Matrix<T>, t: &Matrix<T>) -> (r: T)
    requires
        ket.wf(),
        t.wf(),
        ket.spec_cols() == 1,
        t.spec_rows() == t.spec_cols(),
        t.spec_rows() == ket.spec_rows(),
    ensures
        is_mean_transition(ket@, t@, r),
        T::exact() ==> r == spec_mean_transition(ket@, t@),
{
    let moved = apply_transformation(ket, t);
    let r = transition_amplitude(&moved, ket);
    assert(crate::matrix::is_product_of(t@, ket@, moved@));
    r
}

/// The variance of the observable `t` in the state `ket`.
pub fn variance_transition<T: Scalar>(ket: &Matrix<T>, t: &Matrix<T>) -> (r: T)
    requires
        ket.wf(),
        t.wf(),
        ket.spec_cols() == 1,
        t.spec_rows() == t.spec_cols(),
        t.spec_rows() == ket.spec_rows(),
    ensures
        is_variance_transition(ket@, t@, r),
        T::exact() ==> r == spec_variance_transition(ket@, t@),
{
    let mu = mean_transition(ket, t);
    let (n, c) = t.size();
    let id = Matrix::<T>::identity(n);
    let shift = id.scalar_mul(mu);
    let centered = t.difference(&shift);
    let squared = centered.product(&centered);
    let r = mean_transition(ket, &squared);
    assert(variance_from(ket@, t@, mu, id@, shift@, centered@, squared@, r));
    r
}

} // verus!
