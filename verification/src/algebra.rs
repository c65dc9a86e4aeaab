//! Laws of matrix algebra over a commutative ring with conjugation.

use crate::complex::{
    is_ring, lemma_ring_conjugate, lemma_ring_distributes, lemma_ring_near, lemma_ring_times,
    Scalar,
};
use crate::matrix::{
    cols, dot_upto, has_shape, is_rect, rows, spec_add, spec_adjoint, spec_conjugate,
    spec_is_hermitian, spec_multiply, spec_tensor, spec_transpose,
};
use vstd::prelude::*;

verus! {

/// Two matrices of one shape with equal entries are equal.
pub proof fn lemma_matrix_equal<T>(a: Seq<Seq<T>>, b: Seq<Seq<T>>)
    requires
        is_rect(a),
        is_rect(b),
        rows(a) == rows(b),
        cols(a) == cols(b),
        forall|i: int, j: int| 0 <= i < rows(a) && 0 <= j < cols(a) ==> a[i][j] == b[i][j],
    ensures
        a == b,
{
    assert forall|i: int| 0 <= i < a.len() implies a[i] == b[i] by {
        assert(a[i].len() == a[0].len());
        assert(b[i].len() == b[0].len());
        assert(a[i] =~= b[i]);
    }
    assert(a =~= b);
}

/// The adjoint of the adjoint is the matrix itself.
pub proof fn lemma_adjoint_twice<T: Scalar>(m: Seq<Seq<T>>)
    requires
        is_ring::<T>(),
        is_rect(m),
    ensures
        spec_adjoint(spec_adjoint(m)) == m,
{
    let back = spec_adjoint(spec_adjoint(m));
    assert forall|i: int, j: int| 0 <= i < rows(m) && 0 <= j < cols(m) implies back[i][j]
        == m[i][j] by {
        assert(m[i].len() == m[0].len());
        assert(back[i][j] == m[i][j].spec_conjugate().spec_conjugate());
        lemma_ring_conjugate(m[i][j], m[i][j]);
    }
    lemma_matrix_equal(back, m);
}

/// The conjugate of a partial dot product is the partial dot product of the
/// adjoints, taken in the other order.
proof fn lemma_conjugate_of_dot<T: Scalar>(a: Seq<Seq<T>>, b: Seq<Seq<T>>, i: int, j: int, n: int)
    requires
        is_ring::<T>(),
        is_rect(a),
        is_rect(b),
        cols(a) == rows(b),
        0 <= i < rows(a),
        0 <= j < cols(b),
        0 <= n <= cols(a),
    ensures
        dot_upto(a, b, i, j, n).spec_conjugate() == dot_upto(
            spec_adjoint(b),
            spec_adjoint(a),
            j,
            i,
            n,
        ),
    decreases n,
{
    if n > 0 {
        lemma_conjugate_of_dot(a, b, i, j, n - 1);
        let t = n - 1;
        assert(a[i].len() == a[0].len());
        assert(b[t].len() == b[0].len());
        assert(spec_adjoint(b)[j][t] == b[t][j].spec_conjugate());
        assert(spec_adjoint(a)[t][i] == a[i][t].spec_conjugate());
        let x = a[i][t];
        let y = b[t][j];
        let s = dot_upto(a, b, i, j, t);
        lemma_ring_conjugate(s, x.spec_times(y));
        lemma_ring_conjugate(x, y);
        lemma_ring_times(x.spec_conjugate(), y.spec_conjugate(), x);
    } else {
        lemma_ring_conjugate(a[0][0], a[0][0]);
    }
}

/// The adjoint of a product is the product of the adjoints in the other order.
pub proof fn lemma_adjoint_of_product<T: Scalar>(a: Seq<Seq<T>>, b: Seq<Seq<T>>)
    requires
        is_ring::<T>(),
        is_rect(a),
        is_rect(b),
        cols(a) == rows(b),
    ensures
        spec_adjoint(spec_multiply(a, b)) == spec_multiply(spec_adjoint(b), spec_adjoint(a)),
{
    let left = spec_adjoint(spec_multiply(a, b));
    let right = spec_multiply(spec_adjoint(b), spec_adjoint(a));
    assert(has_shape(spec_adjoint(b), cols(b), rows(b)));
    assert(has_shape(spec_adjoint(a), cols(a), rows(a)));
    assert forall|j: int, i: int| 0 <= j < cols(b) && 0 <= i < rows(a) implies left[j][i]
        == right[j][i] by {
        lemma_conjugate_of_dot(a, b, i, j, cols(a) as int);
    }
    lemma_matrix_equal(left, right);
}

/// Splitting an index of a threefold product into its three parts gives the
/// same parts whichever pair is split off first.
pub proof fn lemma_split_index(x: int, p: int, q: int)
    requires
        0 <= x,
        0 < p,
        0 < q,
    ensures
        (x / q) / p == x / (p * q),
        (x / q) % p == (x % (p * q)) / q,
        x % q == (x % (p * q)) % q,
{
    vstd::arithmetic::div_mod::lemma_div_denominator(x, q, p);
    vstd::arithmetic::div_mod::lemma_mod_mod(x, q, p);
    vstd::arithmetic::div_mod::lemma_mod_breakdown(x, q, p);
    vstd::arithmetic::mul::lemma_mul_is_commutative(p, q);
    vstd::arithmetic::div_mod::lemma_mod_bound(x, q);
    vstd::arithmetic::div_mod::lemma_fundamental_div_mod_converse(
        x % (p * q),
        q,
        (x / q) % p,
        x % q,
    );
    vstd::arithmetic::mul::lemma_mul_is_commutative(q, (x / q) % p);
}

/// The shape and the entries of a Kronecker product.
pub proof fn lemma_tensor_entries<T: Scalar>(a: Seq<Seq<T>>, b: Seq<Seq<T>>)
    requires
        is_rect(a),
        is_rect(b),
    ensures
        has_shape(spec_tensor(a, b), rows(a) * rows(b), cols(a) * cols(b)),
        forall|i: int, j: int|
            0 <= i < rows(a) * rows(b) && 0 <= j < cols(a) * cols(b) ==> (#[trigger] spec_tensor(
                a,
                b,
            )[i][j]) == a[i / (rows(b) as int)][j / (cols(b) as int)].spec_times(
                b[i % (rows(b) as int)][j % (cols(b) as int)],
            ),
{
    assert(rows(a) * rows(b) > 0) by (nonlinear_arith)
        requires
            rows(a) > 0,
            rows(b) > 0,
    ;
    assert(cols(a) * cols(b) > 0) by (nonlinear_arith)
        requires
            cols(a) > 0,
            cols(b) > 0,
    ;
}

/// The Kronecker product is associative.
pub proof fn lemma_tensor_associative<T: Scalar>(a: Seq<Seq<T>>, b: Seq<Seq<T>>, c: Seq<Seq<T>>)
    requires
        is_ring::<T>(),
        is_rect(a),
        is_rect(b),
        is_rect(c),
    ensures
        spec_tensor(spec_tensor(a, b), c) == spec_tensor(a, spec_tensor(b, c)),
{
    let ab = spec_tensor(a, b);
    let bc = spec_tensor(b, c);
    let left = spec_tensor(ab, c);
    let right = spec_tensor(a, bc);
    let (ra, ca) = (rows(a) as int, cols(a) as int);
    let (rb, cb) = (rows(b) as int, cols(b) as int);
    let (rc, cc) = (rows(c) as int, cols(c) as int);
    lemma_tensor_entries(a, b);
    lemma_tensor_entries(b, c);
    lemma_tensor_entries(ab, c);
    lemma_tensor_entries(a, bc);
    vstd::arithmetic::mul::lemma_mul_is_associative(ra, rb, rc);
    vstd::arithmetic::mul::lemma_mul_is_associative(ca, cb, cc);
    assert forall|i: int, j: int| 0 <= i < rows(left) && 0 <= j < cols(left) implies left[i][j]
        == right[i][j] by {
        lemma_split_index(i, rb, rc);
        lemma_split_index(j, cb, cc);
        crate::matrix::lemma_quotient_below(i, ra * rb, rc);
        crate::matrix::lemma_quotient_below(j, ca * cb, cc);
        crate::matrix::lemma_quotient_below(i / rc, ra, rb);
        crate::matrix::lemma_quotient_below(j / cc, ca, cb);
        crate::matrix::lemma_quotient_below(i, ra, rb * rc);
        crate::matrix::lemma_quotient_below(j, ca, cb * cc);
        let x = a[i / (rb * rc)][j / (cb * cc)];
        let y = b[(i / rc) % rb][(j / cc) % cb];
        let z = c[i % rc][j % cc];
        assert(ab[i / rc][j / cc] == x.spec_times(y));
        assert(bc[i % (rb * rc)][j % (cb * cc)] == y.spec_times(z));
        assert(left[i][j] == x.spec_times(y).spec_times(z));
        assert(right[i][j] == x.spec_times(y.spec_times(z)));
        lemma_ring_times(x, y, z);
    }
    lemma_matrix_equal(left, right);
}

/// The Kronecker product distributes over a sum on its left.
pub proof fn lemma_tensor_of_sum<T: Scalar>(a: Seq<Seq<T>>, a2: Seq<Seq<T>>, b: Seq<Seq<T>>)
    requires
        is_ring::<T>(),
        is_rect(a),
        is_rect(a2),
        is_rect(b),
        rows(a) == rows(a2),
        cols(a) == cols(a2),
    ensures
        spec_tensor(spec_add(a, a2), b) == spec_add(spec_tensor(a, b), spec_tensor(a2, b)),
{
    let s = spec_add(a, a2);
    let left = spec_tensor(s, b);
    let right = spec_add(spec_tensor(a, b), spec_tensor(a2, b));
    let (rb, cb) = (rows(b) as int, cols(b) as int);
    lemma_tensor_entries(a, b);
    lemma_tensor_entries(a2, b);
    lemma_tensor_entries(s, b);
    assert forall|i: int, j: int| 0 <= i < rows(left) && 0 <= j < cols(left) implies left[i][j]
        == right[i][j] by {
        crate::matrix::lemma_quotient_below(i, rows(a) as int, rb);
        crate::matrix::lemma_quotient_below(j, cols(a) as int, cb);
        let x = a[i / rb][j / cb];
        let x2 = a2[i / rb][j / cb];
        let y = b[i % rb][j % cb];
        assert(s[i / rb][j / cb] == x.spec_plus(x2));
        assert(left[i][j] == x.spec_plus(x2).spec_times(y));
        assert(right[i][j] == x.spec_times(y).spec_plus(x2.spec_times(y)));
        lemma_ring_distributes(x, x2, y);
    }
    lemma_matrix_equal(left, right);
}

/// The Kronecker product distributes over a sum on its right.
pub proof fn lemma_tensor_with_sum<T: Scalar>(a: Seq<Seq<T>>, b: Seq<Seq<T>>, b2: Seq<Seq<T>>)
    requires
        is_ring::<T>(),
        is_rect(a),
        is_rect(b),
        is_rect(b2),
        rows(b) == rows(b2),
        cols(b) == cols(b2),
    ensures
        spec_tensor(a, spec_add(b, b2)) == spec_add(spec_tensor(a, b), spec_tensor(a, b2)),
{
    let s = spec_add(b, b2);
    let left = spec_tensor(a, s);
    let right = spec_add(spec_tensor(a, b), spec_tensor(a, b2));
    let (rb, cb) = (rows(b) as int, cols(b) as int);
    lemma_tensor_entries(a, b);
    lemma_tensor_entries(a, b2);
    lemma_tensor_entries(a, s);
    assert forall|i: int, j: int| 0 <= i < rows(left) && 0 <= j < cols(left) implies left[i][j]
        == right[i][j] by {
        crate::matrix::lemma_quotient_below(i, rows(a) as int, rb);
        crate::matrix::lemma_quotient_below(j, cols(a) as int, cb);
        let x = a[i / rb][j / cb];
        let y = b[i % rb][j % cb];
        let y2 = b2[i % rb][j % cb];
        assert(s[i % rb][j % cb] == y.spec_plus(y2));
        assert(left[i][j] == x.spec_times(y.spec_plus(y2)));
        assert(right[i][j] == x.spec_times(y).spec_plus(x.spec_times(y2)));
        lemma_ring_distributes(y, y2, x);
    }
    lemma_matrix_equal(left, right);
}

/// The tensor product goes through a scalar factor: scaling the left
/// matrix scales the product.
pub proof fn lemma_tensor_of_scaled<T: Scalar>(a: Seq<Seq<T>>, b: Seq<Seq<T>>, s: T)
    requires
        is_ring::<T>(),
        is_rect(a),
        is_rect(b),
    ensures
        spec_tensor(crate::matrix::spec_scalar_mul(a, s), b) == crate::matrix::spec_scalar_mul(
            spec_tensor(a, b),
            s,
        ),
{
    let scaled = crate::matrix::spec_scalar_mul(a, s);
    let left = spec_tensor(scaled, b);
    let right = crate::matrix::spec_scalar_mul(spec_tensor(a, b), s);
    let (rb, cb) = (rows(b) as int, cols(b) as int);
    lemma_tensor_entries(a, b);
    lemma_tensor_entries(scaled, b);
    assert forall|i: int, j: int| 0 <= i < rows(left) && 0 <= j < cols(left) implies left[i][j]
        == right[i][j] by {
        crate::matrix::lemma_quotient_below(i, rows(a) as int, rb);
        crate::matrix::lemma_quotient_below(j, cols(a) as int, cb);
        let x = a[i / rb][j / cb];
        let y = b[i % rb][j % cb];
        assert(scaled[i / rb][j / cb] == x.spec_times(s));
        assert(left[i][j] == x.spec_times(s).spec_times(y));
        assert(right[i][j] == x.spec_times(y).spec_times(s));
        lemma_ring_times(x, s, y);
        lemma_ring_times(s, y, x);
        lemma_ring_times(x, y, s);
    }
    lemma_matrix_equal(left, right);
}

/// The adjoint of a Hermitian matrix is the matrix itself, so it is
/// Hermitian too, and taking the adjoint twice gives the matrix back.
pub proof fn lemma_adjoint_of_hermitian<T: Scalar>(h: Seq<Seq<T>>)
    requires
        is_ring::<T>(),
        is_rect(h),
        spec_is_hermitian(h),
    ensures
        spec_adjoint(h) == h,
        spec_is_hermitian(spec_adjoint(h)),
        spec_adjoint(spec_adjoint(h)) == h,
{
    let adj = spec_adjoint(h);
    assert forall|i: int, j: int| 0 <= i < rows(h) && 0 <= j < cols(h) implies adj[i][j]
        == h[i][j] by {
        assert(h[i][j].spec_near(adj[i][j]));
        lemma_ring_near(h[i][j], adj[i][j]);
    }
    lemma_matrix_equal(adj, h);
}

/// The transpose of the transpose is the matrix itself, whatever the scalars.
pub proof fn lemma_transpose_twice<T>(m: Seq<Seq<T>>)
    requires
        is_rect(m),
    ensures
        spec_transpose(spec_transpose(m)) == m,
{
    let back = spec_transpose(spec_transpose(m));
    assert forall|i: int, j: int| 0 <= i < rows(m) && 0 <= j < cols(m) implies back[i][j]
        == m[i][j] by {
        assert(m[i].len() == m[0].len());
    }
    lemma_matrix_equal(back, m);
}

/// Conjugating twice gives the matrix back.
pub proof fn lemma_conjugate_twice<T: Scalar>(m: Seq<Seq<T>>)
    requires
        is_ring::<T>(),
        is_rect(m),
    ensures
        spec_conjugate(spec_conjugate(m)) == m,
{
    let back = spec_conjugate(spec_conjugate(m));
    assert forall|i: int, j: int| 0 <= i < rows(m) && 0 <= j < cols(m) implies back[i][j]
        == m[i][j] by {
        assert(m[i].len() == m[0].len());
        assert(back[i][j] == m[i][j].spec_conjugate().spec_conjugate());
        lemma_ring_conjugate(m[i][j], m[i][j]);
    }
    lemma_matrix_equal(back, m);
}

} // verus!
