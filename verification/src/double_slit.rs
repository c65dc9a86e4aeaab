//! The slit experiment: a source, a row of slits, and three targets behind
//! each slit, of which neighbouring slits share one.
//!
//! The places are numbered from the source (0) over the slits (1 up to the
//! number of slits) to the targets. A transition matrix holds in column `c`
//! what goes from place `c` to every place in one step.

use crate::complex::{is_one, is_zero, Scalar};
use crate::matrix::{
    agrees, entries_hold, has_shape, is_product_of, is_unit_column, spec_multiply,
    spec_unit_column, tabulate, Matrix,
};
use vstd::prelude::*;

verus! {

/// The number of places of a slit experiment: one source, the slits, and
/// twice as many targets as slits and one more.
pub fn slits_to_matrix_size(slits: usize) -> (r: usize)
    requires
        3 * slits + 2 <= usize::MAX,
    ensures
        r == 3 * slits + 2,
{
    1 + slits + ((slits * 2) + 1)
}

/// The first of the three targets behind the slit at place `c`.
pub open spec fn first_target(slits: nat, c: int) -> int {
    slits + 2 * (c - 1) + 1
}

/// The entry at `(r, c)` of the transition matrix: the source goes to every
/// slit with `from_source`, a slit goes to its three targets with
/// `to_targets`, and a target stays where it is.
pub open spec fn transition_entry<T: Scalar>(
    slits: nat,
    from_source: T,
    to_targets: (T, T, T),
    r: int,
    c: int,
) -> T {
    if c == 0 {
        if 1 <= r <= slits {
            from_source
        } else {
            T::spec_zero()
        }
    } else if c <= slits {
        if r == first_target(slits, c) {
            to_targets.0
        } else if r == first_target(slits, c) + 1 {
            to_targets.1
        } else if r == first_target(slits, c) + 2 {
            to_targets.2
        } else {
            T::spec_zero()
        }
    } else if r == c {
        T::spec_one()
    } else {
        T::spec_zero()
    }
}

/// The transition matrix of an experiment with `slits` slits.
pub open spec fn spec_transition_matrix<T: Scalar>(
    slits: nat,
    from_source: T,
    to_targets: (T, T, T),
) -> Seq<Seq<T>> {
    tabulate(
        3 * slits + 2,
        3 * slits + 2,
        |r: int, c: int| transition_entry(slits, from_source, to_targets, r, c),
    )
}

/// `v` can stand at `(r, c)` in the transition matrix: it is the amplitude
/// given for that place, or a result of zero or of one.
pub open spec fn is_transition_entry<T: Scalar>(
    slits: nat,
    from_source: T,
    to_targets: (T, T, T),
    r: int,
    c: int,
    v: T,
) -> bool {
    if c == 0 {
        if 1 <= r <= slits {
            v == from_source
        } else {
            is_zero(v)
        }
    } else if c <= slits {
        if r == first_target(slits, c) {
            v == to_targets.0
        } else if r == first_target(slits, c) + 1 {
            v == to_targets.1
        } else if r == first_target(slits, c) + 2 {
            v == to_targets.2
        } else {
            is_zero(v)
        }
    } else if r == c {
        is_one(v)
    } else {
        is_zero(v)
    }
}

/// `m` is a transition matrix of an experiment with `slits` slits.
pub open spec fn is_transition_matrix<T: Scalar>(
    slits: nat,
    from_source: T,
    to_targets: (T, T, T),
    m: Seq<Seq<T>>,
) -> bool {
    has_shape(m, 3 * slits + 2, 3 * slits + 2) && entries_hold(
        m,
        |r: int, c: int, v: T| is_transition_entry(slits, from_source, to_targets, r, c, v),
    )
}

/// The entry of the transition matrix at `(r, c)`.
fn entry_at<T: Scalar>(slits: usize, from_source: T, to_targets: (T, T, T), r: usize, c: usize) -> (v:
    T)
    requires
        3 * slits + 2 <= usize::MAX,
        r < 3 * slits + 2,
        c < 3 * slits + 2,
    ensures
        is_transition_entry(slits as nat, from_source, to_targets, r as int, c as int, v),
        T::exact() ==> v == transition_entry(
            slits as nat,
            from_source,
            to_targets,
            r as int,
            c as int,
        ),
{
    if c == 0 {
        if 1 <= r && r <= slits {
            from_source
        } else {
            T::zero()
        }
    } else if c <= slits {
        let first = slits + 2 * (c - 1) + 1;
        if r == first {
            to_targets.0
        } else if r == first + 1 {
            to_targets.1
        } else if r == first + 2 {
            to_targets.2
        } else {
            T::zero()
        }
    } else if r == c {
        T::one()
    } else {
        T::zero()
    }
}

/// The transition matrix of an experiment with `slits` slits, in which the
/// source goes to every slit with the amplitude `from_source` and a slit
/// goes to its three targets with the amplitudes `to_targets`.
pub fn setup_quantum_matrix<T: Scalar>(slits: usize, from_source: T, to_targets: (T, T, T)) -> (m:
    Matrix<T>)
    requires
        3 * slits + 2 <= usize::MAX,
    ensures
        is_transition_matrix(slits as nat, from_source, to_targets, m@),
        agrees(m@, spec_transition_matrix(slits as nat, from_source, to_targets)),
{
    let size = slits_to_matrix_size(slits);
    let mut data: Vec<Vec<T>> = Vec::new();
    let mut r: usize = 0;
    while r < size
        invariant
            r <= size,
            size == 3 * slits + 2,
            data@.len() == r,
            forall|p: int| 0 <= p < r ==> (#[trigger] data@[p])@.len() == size,
            forall|p: int, q: int|
                0 <= p < r && 0 <= q < size ==> is_transition_entry(
                    slits as nat,
                    from_source,
                    to_targets,
                    p,
                    q,
                    #[trigger] data@[p]@[q],
                ),
            T::exact() ==> forall|p: int, q: int|
                0 <= p < r && 0 <= q < size ==> #[trigger] data@[p]@[q] == transition_entry(
                    slits as nat,
                    from_source,
                    to_targets,
                    p,
                    q,
                ),
        decreases size - r,
    {
        let mut line: Vec<T> = Vec::new();
        let mut c: usize = 0;
        while c < size
            invariant
                c <= size,
                r < size,
                size == 3 * slits + 2,
                line@.len() == c,
                forall|q: int|
                    0 <= q < c ==> is_transition_entry(
                        slits as nat,
                        from_source,
                        to_targets,
                        r as int,
                        q,
                        #[trigger] line@[q],
                    ),
                T::exact() ==> forall|q: int|
                    0 <= q < c ==> #[trigger] line@[q] == transition_entry(
                        slits as nat,
                        from_source,
                        to_targets,
                        r as int,
                        q,
                    ),
            decreases size - c,
        {
            line.push(entry_at(slits, from_source, to_targets, r, c));
            c = c + 1;
        }
        data.push(line);
        r = r + 1;
    }
    let m = Matrix { data };
    assert(T::exact() ==> m@ =~~= spec_transition_matrix(slits as nat, from_source, to_targets));
    m
}

/// The transition matrix of an experiment with `slits` slits, in which the
/// source goes to every slit with the chance `from_source` and a slit goes
/// to each of its three targets with the chance `to_target`.
pub fn setup_prob_matrix<T: Scalar>(slits: usize, from_source: T, to_target: T) -> (m: Matrix<T>)
    requires
        3 * slits + 2 <= usize::MAX,
    ensures
        is_transition_matrix(slits as nat, from_source, (to_target, to_target, to_target), m@),
        agrees(
            m@,
            spec_transition_matrix(slits as nat, from_source, (to_target, to_target, to_target)),
        ),
{
    setup_quantum_matrix(slits, from_source, (to_target, to_target, to_target))
}

/// `transform` is a result of two steps of `b`, and `after` a result of
/// `transform` applied to the start `x`.
pub open spec fn is_experiment<T: Scalar>(
    b: Seq<Seq<T>>,
    x: Seq<Seq<T>>,
    transform: Seq<Seq<T>>,
    after: Seq<Seq<T>>,
) -> bool {
    is_product_of(b, b, transform) && is_product_of(transform, x, after)
}

/// Two steps of the transition matrix `b`, and where they take the start `x`.
fn two_steps<T: Scalar>(b: &Matrix<T>, x: &Matrix<T>) -> (r: (Matrix<T>, Matrix<T>))
    requires
        b.wf(),
        x.wf(),
        b.spec_rows() == b.spec_cols(),
        x.spec_rows() == b.spec_rows(),
    ensures
        is_experiment(b@, x@, r.0@, r.1@),
        agrees(r.0@, spec_multiply(b@, b@)),
        agrees(r.1@, spec_multiply(spec_multiply(b@, b@), x@)),
{
    let transform = b.product(b);
    let after = transform.product(x);
    assert(is_product_of(b@, b@, transform@));
    assert(is_product_of(transform@, x@, after@));
    (transform, after)
}

/// `transform` and `after` are results of an experiment with `slits`
/// slits, by way of the transition matrix `b` and the start `x`.
pub open spec fn experiment_from<T: Scalar>(
    slits: nat,
    from_source: T,
    to_targets: (T, T, T),
    b: Seq<Seq<T>>,
    x: Seq<Seq<T>>,
    transform: Seq<Seq<T>>,
    after: Seq<Seq<T>>,
) -> bool {
    &&& is_transition_matrix(slits, from_source, to_targets, b)
    &&& is_unit_column(3 * slits + 2, x)
    &&& is_experiment(b, x, transform, after)
}

/// Two steps of the transition matrix of an experiment.
pub open spec fn spec_transform<T: Scalar>(slits: nat, from_source: T, to_targets: (T, T, T)) -> Seq<
    Seq<T>,
> {
    spec_multiply(
        spec_transition_matrix(slits, from_source, to_targets),
        spec_transition_matrix(slits, from_source, to_targets),
    )
}

/// The slit experiment with chances: two steps of the transition matrix,
/// and where they take the start, a state of one column.
pub fn prob_double_slit<T: Scalar>(slits: usize, from_source: T, to_target: T) -> (r: (
    Matrix<T>,
    Matrix<T>,
))
    requires
        3 * slits + 2 <= usize::MAX,
    ensures
        exists|b: Seq<Seq<T>>, x: Seq<Seq<T>>| #[trigger]
            experiment_from(
                slits as nat,
                from_source,
                (to_target, to_target, to_target),
                b,
                x,
                r.0@,
                r.1@,
            ),
        agrees(r.0@, spec_transform(slits as nat, from_source, (to_target, to_target, to_target))),
        agrees(
            r.1@,
            spec_multiply(
                spec_transform(slits as nat, from_source, (to_target, to_target, to_target)),
                spec_unit_column::<T>((3 * slits + 2) as nat),
            ),
        ),
{
    quantum_double_slit(slits, from_source, (to_target, to_target, to_target))
}

/// The slit experiment with amplitudes: two steps of the transition matrix,
/// and where they take the start, a state of one column.
pub fn quantum_double_slit<T: Scalar>(slits: usize, from_source: T, to_targets: (T, T, T)) -> (r: (
    Matrix<T>,
    Matrix<T>,
))
    requires
        3 * slits + 2 <= usize::MAX,
    ensures
        exists|b: Seq<Seq<T>>, x: Seq<Seq<T>>| #[trigger]
            experiment_from(slits as nat, from_source, to_targets, b, x, r.0@, r.1@),
        agrees(r.0@, spec_transform(slits as nat, from_source, to_targets)),
        agrees(
            r.1@,
            spec_multiply(
                spec_transform(slits as nat, from_source, to_targets),
                spec_unit_column::<T>((3 * slits + 2) as nat),
            ),
        ),
{
    let b = setup_quantum_matrix(slits, from_source, to_targets);
    let size = slits_to_matrix_size(slits);
    let x = Matrix::<T>::unit_column(size);
    let r = two_steps(&b, &x);
    assert(experiment_from(slits as nat, from_source, to_targets, b@, x@, r.0@, r.1@));
    r
}

/// The state after `steps` steps of `transformation` from `start`.
pub open spec fn spec_steps<T: Scalar>(start: Seq<Seq<T>>, transformation: Seq<Seq<T>>, steps: nat)
    -> Seq<Seq<T>>
    decreases steps,
{
    if steps == 0 {
        start
    } else {
        spec_multiply(transformation, spec_steps(start, transformation, (steps - 1) as nat))
    }
}

/// `state` is a result of `steps` steps of `transformation` from `start`:
/// every step is a product of the transformation and a result of the steps
/// before.
pub open spec fn is_steps<T: Scalar>(
    start: Seq<Seq<T>>,
    transformation: Seq<Seq<T>>,
    steps: nat,
    state: Seq<Seq<T>>,
) -> bool
    decreases steps,
{
    if steps == 0 {
        state == start
    } else {
        exists|before: Seq<Seq<T>>|
            is_steps(start, transformation, (steps - 1) as nat, before) && #[trigger] is_product_of(
                transformation,
                before,
                state,
            )
    }
}

/// For an exact scalar type the state after some steps is determined.
pub proof fn lemma_steps_exact<T: Scalar>(
    start: Seq<Seq<T>>,
    transformation: Seq<Seq<T>>,
    steps: nat,
    state: Seq<Seq<T>>,
)
    requires
        T::exact(),
        is_steps(start, transformation, steps, state),
    ensures
        state == spec_steps(start, transformation, steps),
    decreases steps,
{
    if steps > 0 {
        let before = choose|before: Seq<Seq<T>>|
            is_steps(start, transformation, (steps - 1) as nat, before) && #[trigger] is_product_of(
                transformation,
                before,
                state,
            );
        lemma_steps_exact(start, transformation, (steps - 1) as nat, before);
        crate::matrix::lemma_product_exact(transformation, before, state);
    }
}

/// The state after `steps` steps of `transformation` from `start`.
///
/// A step needs a transformation with as many columns as the state has
/// rows, and a second step a square one.
pub fn bool_double_slit<T: Scalar>(start: Matrix<T>, transformation: Matrix<T>, steps: u32) -> (state:
    Matrix<T>)
    requires
        start.wf(),
        transformation.wf(),
        steps >= 1 ==> transformation.spec_cols() == start.spec_rows(),
        steps >= 2 ==> transformation.spec_rows() == transformation.spec_cols(),
    ensures
        state.wf(),
        is_steps(start@, transformation@, steps as nat, state@),
        T::exact() ==> state@ == spec_steps(start@, transformation@, steps as nat),
{
    let mut state = start;
    let mut done: u32 = 0;
    while done < steps
        invariant
            done <= steps,
            state.wf(),
            transformation.wf(),
            steps >= 1 ==> transformation.spec_cols() == start.spec_rows(),
            steps >= 2 ==> transformation.spec_rows() == transformation.spec_cols(),
            done == 0 ==> state@ == start@,
            done >= 1 ==> state.spec_rows() == transformation.spec_rows(),
            is_steps(start@, transformation@, done as nat, state@),
        decreases steps - done,
    {
        let ghost before = state@;
        state = transformation.product(&state);
        assert(is_product_of(transformation@, before, state@));
        assert(((done + 1) as nat - 1) as nat == done as nat);
        assert(is_steps(start@, transformation@, (done + 1) as nat, state@));
        done = done + 1;
    }
    proof {
        if T::exact() {
            lemma_steps_exact(start@, transformation@, steps as nat, state@);
        }
    }
    state
}

} // verus!
