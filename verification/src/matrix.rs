//! Dense matrices over a scalar type.

use crate::complex::{
    is_conjugate, is_difference, is_near, is_one, is_product, is_sum, is_zero, Scalar,
};
use vstd::prelude::*;

verus! {

/// A dense matrix, stored row by row. A vector is a matrix of one column.
#[derive(Debug, Clone, PartialEq)]
pub struct Matrix<T> {
    pub data: Vec<Vec<T>>,
}

/// Two matrices do not have the shapes that an operation asks for.
#[derive(Debug, Copy, Clone, PartialEq, Eq, Structural)]
pub struct ShapeError;

impl<T> View for Matrix<T> {
    type V = Seq<Seq<T>>;

    open spec fn view(&self) -> Seq<Seq<T>> {
        Seq::new(self.data@.len(), |i: int| self.data@[i]@)
    }
}

/// The views of the rows.
pub open spec fn rows_view<T>(data: Seq<Vec<T>>) -> Seq<Seq<T>> {
    Seq::new(data.len(), |i: int| data[i]@)
}

/// The matrix has a row and a column at least, and all rows have one length.
pub open spec fn is_rect<T>(m: Seq<Seq<T>>) -> bool {
    &&& m.len() > 0
    &&& m[0].len() > 0
    &&& forall|i: int| 0 <= i < m.len() ==> (#[trigger] m[i]).len() == m[0].len()
}

/// The number of rows.
pub open spec fn rows<T>(m: Seq<Seq<T>>) -> nat {
    m.len()
}

/// The number of columns.
pub open spec fn cols<T>(m: Seq<Seq<T>>) -> nat {
    m[0].len()
}

/// `m` is a well-formed matrix of the given shape.
pub open spec fn has_shape<T>(m: Seq<Seq<T>>, r: nat, c: nat) -> bool {
    is_rect(m) && rows(m) == r && cols(m) == c
}

/// The matrix of the given shape whose entry at `(i, j)` is `f(i, j)`.
pub open spec fn tabulate<T>(r: nat, c: nat, f: spec_fn(int, int) -> T) -> Seq<Seq<T>> {
    Seq::new(r, |i: int| Seq::new(c, |j: int| f(i, j)))
}

/// The matrix of zeros.
pub open spec fn spec_zero<T: Scalar>(r: nat, c: nat) -> Seq<Seq<T>> {
    tabulate(r, c, |i: int, j: int| T::spec_zero())
}

/// The identity matrix.
pub open spec fn spec_identity<T: Scalar>(n: nat) -> Seq<Seq<T>> {
    tabulate(
        n,
        n,
        |i: int, j: int|
            if i == j {
                T::spec_one()
            } else {
                T::spec_zero()
            },
    )
}

/// `m` with the entry at `(row, col)` replaced by `value`.
pub open spec fn spec_set<T>(m: Seq<Seq<T>>, row: int, col: int, value: T) -> Seq<Seq<T>> {
    tabulate(
        rows(m),
        cols(m),
        |i: int, j: int|
            if i == row && j == col {
                value
            } else {
                m[i][j]
            },
    )
}

/// Rows and columns exchanged.
pub open spec fn spec_transpose<T>(m: Seq<Seq<T>>) -> Seq<Seq<T>> {
    tabulate(cols(m), rows(m), |i: int, j: int| m[j][i])
}

/// Every entry conjugated.
pub open spec fn spec_conjugate<T: Scalar>(m: Seq<Seq<T>>) -> Seq<Seq<T>> {
    tabulate(rows(m), cols(m), |i: int, j: int| m[i][j].spec_conjugate())
}

/// The conjugate of the transpose.
pub open spec fn spec_adjoint<T: Scalar>(m: Seq<Seq<T>>) -> Seq<Seq<T>> {
    spec_transpose(spec_conjugate(m))
}

/// Every entry multiplied by `s` on the right.
pub open spec fn spec_scalar_mul<T: Scalar>(m: Seq<Seq<T>>, s: T) -> Seq<Seq<T>> {
    tabulate(rows(m), cols(m), |i: int, j: int| m[i][j].spec_times(s))
}

/// Every entry multiplied by minus one on the left.
pub open spec fn spec_negative<T: Scalar>(m: Seq<Seq<T>>) -> Seq<Seq<T>> {
    tabulate(
        rows(m),
        cols(m),
        |i: int, j: int| T::spec_zero().spec_minus(T::spec_one()).spec_times(m[i][j]),
    )
}

/// The entry-wise sum.
pub open spec fn spec_add<T: Scalar>(a: Seq<Seq<T>>, b: Seq<Seq<T>>) -> Seq<Seq<T>> {
    tabulate(rows(a), cols(a), |i: int, j: int| a[i][j].spec_plus(b[i][j]))
}

/// The entry-wise difference.
pub open spec fn spec_sub<T: Scalar>(a: Seq<Seq<T>>, b: Seq<Seq<T>>) -> Seq<Seq<T>> {
    tabulate(rows(a), cols(a), |i: int, j: int| a[i][j].spec_minus(b[i][j]))
}

/// The sum of `a[i][t] * b[t][j]` over `t` below `k`, added up from `t = 0`.
pub open spec fn dot_upto<T: Scalar>(a: Seq<Seq<T>>, b: Seq<Seq<T>>, i: int, j: int, k: int) -> T
    decreases k,
{
    if k <= 0 {
        T::spec_zero()
    } else {
        dot_upto(a, b, i, j, k - 1).spec_plus(a[i][k - 1].spec_times(b[k - 1][j]))
    }
}

/// The matrix product.
pub open spec fn spec_multiply<T: Scalar>(a: Seq<Seq<T>>, b: Seq<Seq<T>>) -> Seq<Seq<T>> {
    tabulate(rows(a), cols(b), |i: int, j: int| dot_upto(a, b, i, j, cols(a) as int))
}

/// The Kronecker product: the entry at `(i * rows(b) + k, j * cols(b) + l)`
/// is `a[i][j] * b[k][l]`.
pub open spec fn spec_tensor<T: Scalar>(a: Seq<Seq<T>>, b: Seq<Seq<T>>) -> Seq<Seq<T>> {
    tabulate(
        rows(a) * rows(b),
        cols(a) * cols(b),
        |i: int, j: int|
            a[i / (rows(b) as int)][j / (cols(b) as int)].spec_times(
                b[i % (rows(b) as int)][j % (cols(b) as int)],
            ),
    )
}

/// The sum of `a[i][j] * b[i][j]` over the first `n` entries in row-major order.
pub open spec fn entry_sum_upto<T: Scalar>(a: Seq<Seq<T>>, b: Seq<Seq<T>>, n: int) -> T
    decreases n,
{
    if n <= 0 {
        T::spec_zero()
    } else {
        let i = (n - 1) / (cols(a) as int);
        let j = (n - 1) % (cols(a) as int);
        entry_sum_upto(a, b, n - 1).spec_plus(a[i][j].spec_times(b[i][j]))
    }
}

/// The sum of the entry-wise products.
pub open spec fn spec_dot<T: Scalar>(a: Seq<Seq<T>>, b: Seq<Seq<T>>) -> T {
    entry_sum_upto(a, b, (rows(a) * cols(a)) as int)
}

/// Every entry of `a` counts as equal to the entry of `b` in its place.
pub open spec fn all_near<T: Scalar>(a: Seq<Seq<T>>, b: Seq<Seq<T>>) -> bool {
    forall|i: int, j: int|
        0 <= i < rows(a) && 0 <= j < cols(a) ==> (#[trigger] a[i][j]).spec_near(b[i][j])
}

/// The matrix counts as equal to its adjoint.
pub open spec fn spec_is_hermitian<T: Scalar>(m: Seq<Seq<T>>) -> bool {
    rows(m) == cols(m) && all_near(m, spec_adjoint(m))
}

/// The product of the matrix and its adjoint counts as equal to the identity.
pub open spec fn spec_is_unitary<T: Scalar>(m: Seq<Seq<T>>) -> bool {
    all_near(spec_multiply(m, spec_adjoint(m)), spec_identity::<T>(rows(m)))
}

/// Every entry multiplied by `s` on the left.
pub open spec fn spec_scaled_by<T: Scalar>(m: Seq<Seq<T>>, s: T) -> Seq<Seq<T>> {
    tabulate(rows(m), cols(m), |i: int, j: int| s.spec_times(m[i][j]))
}

/// `n` is a result of `zero.minus(one)`.
pub open spec fn minus_one_from<T: Scalar>(zero: T, one: T, n: T) -> bool {
    is_zero(zero) && is_one(one) && is_difference(zero, one, n)
}

/// `n` is a result of taking one from zero.
pub open spec fn is_minus_one<T: Scalar>(n: T) -> bool {
    exists|zero: T, one: T| #[trigger] minus_one_from(zero, one, n)
}

/// `s` is a result of the sum of `a[i][t] * b[t][j]` over `t` below `k`,
/// added up from `t = 0`, starting at zero: every product and every sum
/// is a result of the operation of the scalar type on the results before.
pub open spec fn is_dot<T: Scalar>(a: Seq<Seq<T>>, b: Seq<Seq<T>>, i: int, j: int, k: int, s: T)
    -> bool
    decreases k,
{
    if k <= 0 {
        is_zero(s)
    } else {
        exists|before: T, term: T|
            is_dot(a, b, i, j, k - 1, before) && is_product(a[i][k - 1], b[k - 1][j], term)
                && #[trigger] is_sum(before, term, s)
    }
}

/// `s` is a result of the sum of `a[i][j] * b[i][j]` over the first `n`
/// entries in row-major order, added up from the first, starting at zero.
pub open spec fn is_entry_sum<T: Scalar>(a: Seq<Seq<T>>, b: Seq<Seq<T>>, n: int, s: T) -> bool
    decreases n,
{
    if n <= 0 {
        is_zero(s)
    } else {
        exists|before: T, term: T|
            is_entry_sum(a, b, n - 1, before) && is_product(
                a[(n - 1) / (cols(a) as int)][(n - 1) % (cols(a) as int)],
                b[(n - 1) / (cols(a) as int)][(n - 1) % (cols(a) as int)],
                term,
            ) && #[trigger] is_sum(before, term, s)
    }
}

/// For an exact scalar type a result of a dot product is the dot product.
pub proof fn lemma_dot_value<T: Scalar>(a: Seq<Seq<T>>, b: Seq<Seq<T>>, i: int, j: int, k: int, s: T)
    requires
        T::exact(),
        is_dot(a, b, i, j, k, s),
    ensures
        s == dot_upto(a, b, i, j, k),
    decreases k,
{
    if k > 0 {
        let (before, term) = choose|before: T, term: T|
            is_dot(a, b, i, j, k - 1, before) && is_product(a[i][k - 1], b[k - 1][j], term)
                && #[trigger] is_sum(before, term, s);
        lemma_dot_value(a, b, i, j, k - 1, before);
    }
}

/// For an exact scalar type every result of a dot product is the dot product.
pub proof fn lemma_dot_exact<T: Scalar>(a: Seq<Seq<T>>, b: Seq<Seq<T>>)
    ensures
        T::exact() ==> forall|i: int, j: int, k: int, s: T| #[trigger]
            is_dot(a, b, i, j, k, s) ==> s == dot_upto(a, b, i, j, k),
{
    if T::exact() {
        assert forall|i: int, j: int, k: int, s: T| #[trigger] is_dot(a, b, i, j, k, s) implies s
            == dot_upto(a, b, i, j, k) by {
            lemma_dot_value(a, b, i, j, k, s);
        }
    }
}

/// For an exact scalar type a result of the sum of the entry-wise products
/// is that sum.
pub proof fn lemma_entry_sum_exact<T: Scalar>(a: Seq<Seq<T>>, b: Seq<Seq<T>>, n: int, s: T)
    requires
        T::exact(),
        is_entry_sum(a, b, n, s),
    ensures
        s == entry_sum_upto(a, b, n),
    decreases n,
{
    if n > 0 {
        let (before, term) = choose|before: T, term: T|
            is_entry_sum(a, b, n - 1, before) && is_product(
                a[(n - 1) / (cols(a) as int)][(n - 1) % (cols(a) as int)],
                b[(n - 1) / (cols(a) as int)][(n - 1) % (cols(a) as int)],
                term,
            ) && #[trigger] is_sum(before, term, s);
        lemma_entry_sum_exact(a, b, n - 1, before);
    }
}

/// `adj` is an adjoint of `m`: every entry is a result of the conjugate of
/// the entry of `m` in the transposed place.
pub open spec fn is_adjoint_of<T: Scalar>(m: Seq<Seq<T>>, adj: Seq<Seq<T>>) -> bool {
    has_shape(adj, cols(m), rows(m)) && entries_hold(
        adj,
        |i: int, j: int, v: T| is_conjugate(m[j][i], v),
    )
}

/// `p` is a product of `a` and `b`: every entry is a result of the dot
/// product of its row of `a` and its column of `b`.
pub open spec fn is_product_of<T: Scalar>(a: Seq<Seq<T>>, b: Seq<Seq<T>>, p: Seq<Seq<T>>) -> bool {
    has_shape(p, rows(a), cols(b)) && entries_hold(
        p,
        |i: int, j: int, v: T| is_dot(a, b, i, j, cols(a) as int, v),
    )
}

/// `id` is an identity of dimension `n`: the entries on the diagonal are
/// results of one, the others results of zero.
pub open spec fn is_identity_of<T: Scalar>(n: nat, id: Seq<Seq<T>>) -> bool {
    has_shape(id, n, n) && entries_hold(
        id,
        |i: int, j: int, v: T|
            if i == j {
                is_one(v)
            } else {
                is_zero(v)
            },
    )
}

/// `m` is a Kronecker product of `a` and `b`: the entry at
/// `(i * rows(b) + k, j * cols(b) + l)` is a result of the product of
/// `a[i][j]` and `b[k][l]`.
pub open spec fn is_tensor_of<T: Scalar>(a: Seq<Seq<T>>, b: Seq<Seq<T>>, m: Seq<Seq<T>>) -> bool {
    has_shape(m, rows(a) * rows(b), cols(a) * cols(b)) && entries_hold(
        m,
        |i: int, j: int, v: T|
            is_product(
                a[i / (rows(b) as int)][j / (cols(b) as int)],
                b[i % (rows(b) as int)][j % (cols(b) as int)],
                v,
            ),
    )
}

/// The column of `size` entries with one at the top and zero below.
pub open spec fn spec_unit_column<T: Scalar>(size: nat) -> Seq<Seq<T>> {
    spec_set(spec_zero::<T>(size, 1), 0, 0, T::spec_one())
}

/// `m` is a column of `size` entries with a result of one at the top and
/// results of zero below.
pub open spec fn is_unit_column<T: Scalar>(size: nat, m: Seq<Seq<T>>) -> bool {
    has_shape(m, size, 1) && entries_hold(
        m,
        |i: int, j: int, v: T|
            if i == 0 {
                is_one(v)
            } else {
                is_zero(v)
            },
    )
}

/// The comparison of the entries at `(i, j)` can give that they do not
/// count as equal.
pub open spec fn differ_at<T: Scalar>(a: Seq<Seq<T>>, b: Seq<Seq<T>>, i: int, j: int) -> bool {
    0 <= i < rows(a) && 0 <= j < cols(a) && is_near(a[i][j], b[i][j], false)
}

/// `r` is a result of the comparison of `a` and `b`: if it is true, every
/// pair of entries was found to count as equal, and if it is false, one
/// pair was found not to.
pub open spec fn is_near_result<T: Scalar>(a: Seq<Seq<T>>, b: Seq<Seq<T>>, r: bool) -> bool {
    if r {
        forall|i: int, j: int|
            0 <= i < rows(a) && 0 <= j < cols(a) ==> is_near(#[trigger] a[i][j], b[i][j], true)
    } else {
        exists|i: int, j: int| #[trigger] differ_at(a, b, i, j)
    }
}

/// `r` is a result of the test whether `m` is Hermitian: a matrix that is
/// not square is not, and a square one is compared with an adjoint of it.
pub open spec fn is_hermitian_result<T: Scalar>(m: Seq<Seq<T>>, r: bool) -> bool {
    if rows(m) != cols(m) {
        !r
    } else {
        exists|adj: Seq<Seq<T>>| #[trigger] is_adjoint_of(m, adj) && is_near_result(m, adj, r)
    }
}

/// `r` is a result of the test for unitarity of `m`, by way of the adjoint
/// `adj`, the product `product` of `m` and `adj`, and the identity `id`.
pub open spec fn is_unitary_result<T: Scalar>(
    m: Seq<Seq<T>>,
    adj: Seq<Seq<T>>,
    product: Seq<Seq<T>>,
    id: Seq<Seq<T>>,
    r: bool,
) -> bool {
    &&& is_adjoint_of(m, adj)
    &&& is_product_of(m, adj, product)
    &&& is_identity_of(rows(m), id)
    &&& is_near_result(product, id, r)
}

/// For an exact scalar type an adjoint of a matrix is the adjoint.
pub proof fn lemma_adjoint_exact<T: Scalar>(m: Seq<Seq<T>>, adj: Seq<Seq<T>>)
    requires
        T::exact(),
        is_adjoint_of(m, adj),
    ensures
        adj == spec_adjoint(m),
{
    assert(adj =~~= spec_adjoint(m));
}

/// For an exact scalar type a product of two matrices is the product.
pub proof fn lemma_product_exact<T: Scalar>(a: Seq<Seq<T>>, b: Seq<Seq<T>>, p: Seq<Seq<T>>)
    requires
        T::exact(),
        is_product_of(a, b, p),
    ensures
        p == spec_multiply(a, b),
{
    assert forall|i: int, j: int| 0 <= i < rows(a) && 0 <= j < cols(b) implies p[i][j]
        == spec_multiply(a, b)[i][j] by {
        lemma_dot_value(a, b, i, j, cols(a) as int, p[i][j]);
    }
    assert(p =~~= spec_multiply(a, b));
}

/// For an exact scalar type a result of the test whether a matrix is
/// Hermitian is whether it is.
pub proof fn lemma_hermitian_exact<T: Scalar>(m: Seq<Seq<T>>, r: bool)
    requires
        T::exact(),
        is_hermitian_result(m, r),
    ensures
        r == spec_is_hermitian(m),
{
    if rows(m) == cols(m) {
        let adj = choose|adj: Seq<Seq<T>>| #[trigger]
            is_adjoint_of(m, adj) && is_near_result(m, adj, r);
        lemma_adjoint_exact(m, adj);
        if !r {
            let (i, j) = choose|i: int, j: int| #[trigger] differ_at(m, adj, i, j);
            assert(!m[i][j].spec_near(adj[i][j]));
        }
    }
}

/// Every entry of `m` is as `holds` says of its place.
pub open spec fn entries_hold<T>(m: Seq<Seq<T>>, holds: spec_fn(int, int, T) -> bool) -> bool {
    forall|i: int, j: int| 0 <= i < rows(m) && 0 <= j < cols(m) ==> holds(i, j, #[trigger] m[i][j])
}

/// The values of `r` are those of `expected`, where the scalar type is exact.
pub open spec fn agrees<T: Scalar>(r: Seq<Seq<T>>, expected: Seq<Seq<T>>) -> bool {
    T::exact() ==> r == expected
}

impl<T: Scalar> Matrix<T> {
    /// Whether the matrix has a row and a column at least and rows of one length.
    pub open spec fn wf(&self) -> bool {
        is_rect(self@)
    }

    /// The number of rows.
    pub open spec fn spec_rows(&self) -> nat {
        rows(self@)
    }

    /// The number of columns.
    pub open spec fn spec_cols(&self) -> nat {
        cols(self@)
    }

    /// The matrix of the given rows.
    pub fn new(data: Vec<Vec<T>>) -> (m: Matrix<T>)
        ensures
            m.data == data,
            m@ == rows_view(data@),
    {
        Matrix { data }
    }

    /// A copy of the matrix.
    pub fn copy(&self) -> (m: Matrix<T>)
        ensures
            m@ == self@,
    {
        let mut data: Vec<Vec<T>> = Vec::new();
        let mut i: usize = 0;
        while i < self.data.len()
            invariant
                i <= self.data.len(),
                data@.len() == i,
                forall|p: int| 0 <= p < i ==> (#[trigger] data@[p])@ == self.data@[p]@,
            decreases self.data.len() - i,
        {
            let mut line: Vec<T> = Vec::new();
            let mut j: usize = 0;
            while j < self.data[i].len()
                invariant
                    i < self.data.len(),
                    j <= self.data@[i as int]@.len(),
                    line@.len() == j,
                    forall|q: int| 0 <= q < j ==> #[trigger] line@[q] == self.data@[i as int]@[q],
                decreases self.data@[i as int]@.len() - j,
            {
                line.push(self.data[i][j]);
                j = j + 1;
            }
            assert(line@ =~= self.data@[i as int]@);
            data.push(line);
            i = i + 1;
        }
        let m = Matrix { data };
        assert(m@ =~= self@);
        m
    }

    /// The number of rows and the number of columns.
    pub fn size(&self) -> (s: (usize, usize))
        requires
            self.wf(),
        ensures
            s.0 == self.spec_rows(),
            s.1 == self.spec_cols(),
    {
        (self.data.len(), self.data[0].len())
    }

    /// Whether the matrix has one column.
    pub fn is_vector(&self) -> (r: bool)
        requires
            self.wf(),
        ensures
            r == (self.spec_cols() == 1),
    {
        self.data[0].len() == 1
    }

    /// The entry at `(row, col)`.
    pub fn at(&self, row: usize, col: usize) -> (v: T)
        requires
            self.wf(),
            row < self.spec_rows(),
            col < self.spec_cols(),
        ensures
            v == self@[row as int][col as int],
    {
        assert(self@[row as int].len() == self@[0].len());
        self.data[row][col]
    }

    /// The square matrix of zeros.
    pub fn zero_sq(size: usize) -> (m: Matrix<T>)
        requires
            size > 0,
        ensures
            has_shape(m@, size as nat, size as nat),
            entries_hold(m@, |i: int, j: int, v: T| is_zero(v)),
            agrees(m@, spec_zero::<T>(size as nat, size as nat)),
    {
        Matrix::zero(size, size)
    }

    /// The matrix of zeros.
    pub fn zero(rows: usize, cols: usize) -> (m: Matrix<T>)
        requires
            rows > 0,
            cols > 0,
        ensures
            has_shape(m@, rows as nat, cols as nat),
            entries_hold(m@, |i: int, j: int, v: T| is_zero(v)),
            agrees(m@, spec_zero::<T>(rows as nat, cols as nat)),
    {
        let mut data: Vec<Vec<T>> = Vec::new();
        let mut i: usize = 0;
        while i < rows
            invariant
                i <= rows,
                rows > 0,
                cols > 0,
                data@.len() == i,
                forall|p: int| 0 <= p < i ==> (#[trigger] data@[p])@.len() == cols,
                forall|p: int, q: int|
                    0 <= p < i && 0 <= q < cols ==> is_zero(#[trigger] data@[p]@[q]),
            decreases rows - i,
        {
            let mut line: Vec<T> = Vec::new();
            let mut j: usize = 0;
            while j < cols
                invariant
                    j <= cols,
                    i < rows,
                    rows > 0,
                    cols > 0,
                    line@.len() == j,
                    forall|q: int| 0 <= q < j ==> is_zero(#[trigger] line@[q]),
                decreases cols - j,
            {
                line.push(T::zero());
                j = j + 1;
            }
            data.push(line);
            i = i + 1;
        }
        let m = Matrix { data };
        assert(T::exact() ==> m@ =~~= spec_zero::<T>(rows as nat, cols as nat));
        m
    }

    /// The identity matrix.
    pub fn identity(size: usize) -> (m: Matrix<T>)
        requires
            size > 0,
        ensures
            has_shape(m@, size as nat, size as nat),
            entries_hold(m@, |i: int, j: int, v: T| (if i == j { is_one(v) } else { is_zero(v) })),
            agrees(m@, spec_identity::<T>(size as nat)),
    {
        let mut data: Vec<Vec<T>> = Vec::new();
        let mut i: usize = 0;
        while i < size
            invariant
                i <= size,
                size > 0,
                data@.len() == i,
                forall|p: int| 0 <= p < i ==> (#[trigger] data@[p])@.len() == size,
                forall|p: int, q: int|
                    0 <= p < i && 0 <= q < size ==> (if p == q { is_one(#[trigger] data@[p]@[q]) } else { is_zero(#[trigger] data@[p]@[q]) }),
            decreases size - i,
        {
            let mut line: Vec<T> = Vec::new();
            let mut j: usize = 0;
            while j < size
                invariant
                    j <= size,
                    i < size,
                    size > 0,
                    line@.len() == j,
                    forall|q: int| 0 <= q < j ==> (if i as int == q { is_one(#[trigger] line@[q]) } else { is_zero(#[trigger] line@[q]) }),
                decreases size - j,
            {
                line.push(if i == j { T::one() } else { T::zero() });
                j = j + 1;
            }
            data.push(line);
            i = i + 1;
        }
        let m = Matrix { data };
        assert(T::exact() ==> m@ =~~= spec_identity::<T>(size as nat));
        m
    }

    /// The column of `size` entries with one at the top and zero below.
    pub fn unit_column(size: usize) -> (m: Matrix<T>)
        requires
            size > 0,
        ensures
            is_unit_column(size as nat, m@),
            agrees(m@, spec_unit_column::<T>(size as nat)),
    {
        let zeros = Matrix::<T>::zero(size, 1);
        let m = zeros.set(0, 0, T::one());
        assert forall|i: int, j: int| 0 <= i < size && 0 <= j < 1 implies (if i == 0 {
            is_one(#[trigger] m@[i][j])
        } else {
            is_zero(m@[i][j])
        }) by {
            assert(is_zero(zeros@[i][j]));
        }
        m
    }

    /// A copy of the matrix with the entry at `(row, col)` replaced.
    pub fn set(&self, row: usize, col: usize, value: T) -> (m: Matrix<T>)
        requires
            self.wf(),
            row < self.spec_rows(),
            col < self.spec_cols(),
        ensures
            has_shape(m@, self.spec_rows(), self.spec_cols()),
            m@ == spec_set(self@, row as int, col as int, value),
    {
        let ghost want = spec_set(self@, row as int, col as int, value);
        let (r, c) = self.size();
        let mut data: Vec<Vec<T>> = Vec::new();
        let mut i: usize = 0;
        while i < r
            invariant
                i <= r,
                self.wf(),
                r == self.spec_rows(),
                c == self.spec_cols(),
                want == spec_set(self@, row as int, col as int, value),
                data@.len() == i,
                forall|p: int| 0 <= p < i ==> (#[trigger] data@[p])@ == want[p],
            decreases r - i,
        {
            let mut line: Vec<T> = Vec::new();
            let mut j: usize = 0;
            while j < c
                invariant
                    j <= c,
                    i < r,
                    self.wf(),
                    r == self.spec_rows(),
                    c == self.spec_cols(),
                    want == spec_set(self@, row as int, col as int, value),
                    line@.len() == j,
                    forall|q: int| 0 <= q < j ==> #[trigger] line@[q] == want[i as int][q],
                decreases c - j,
            {
                if i == row && j == col {
                    line.push(value);
                } else {
                    line.push(self.at(i, j));
                }
                j = j + 1;
            }
            assert(line@ =~= want[i as int]);
            data.push(line);
            i = i + 1;
        }
        let m = Matrix { data };
        assert(m@ =~= want);
        m
    }
    /// The transpose: rows and columns exchanged.
    pub fn transpose(&self) -> (m: Matrix<T>)
        requires
            self.wf(),
        ensures
            has_shape(m@, self.spec_cols(), self.spec_rows()),
            m@ == spec_transpose(self@),
    {
        let ghost want = spec_transpose(self@);
        let (r, c) = self.size();
        let mut data: Vec<Vec<T>> = Vec::new();
        let mut i: usize = 0;
        while i < c
            invariant
                i <= c,
                self.wf(),
                r == self.spec_rows(),
                c == self.spec_cols(),
                want == spec_transpose(self@),
                data@.len() == i,
                forall|p: int| 0 <= p < i ==> (#[trigger] data@[p])@.len() == r,
                forall|p: int| 0 <= p < i ==> (#[trigger] data@[p])@ == want[p],
            decreases c - i,
        {
            let mut line: Vec<T> = Vec::new();
            let mut j: usize = 0;
            while j < r
                invariant
                    j <= r,
                    i < c,
                    self.wf(),
                    r == self.spec_rows(),
                    c == self.spec_cols(),
                    want == spec_transpose(self@),
                    line@.len() == j,
                    forall|q: int|
                        0 <= q < j ==> #[trigger] line@[q] == want[i as int][q],
                decreases r - j,
            {
                line.push(self.at(j, i));
                j = j + 1;
            }
            assert(line@ =~= want[i as int]);
            data.push(line);
            i = i + 1;
        }
        let m = Matrix { data };
        assert(m@ =~= want);
        m
    }

    /// The matrix of the conjugates of all entries.
    pub fn conjugate(&self) -> (m: Matrix<T>)
        requires
            self.wf(),
        ensures
            has_shape(m@, self.spec_rows(), self.spec_cols()),
            entries_hold(m@, |i: int, j: int, v: T| is_conjugate(self@[i][j], v)),
            agrees(m@, spec_conjugate(self@)),
    {
        let (r, c) = self.size();
        let mut data: Vec<Vec<T>> = Vec::new();
        let mut i: usize = 0;
        while i < r
            invariant
                i <= r,
                self.wf(),
                r == self.spec_rows(),
                c == self.spec_cols(),
                data@.len() == i,
                forall|p: int| 0 <= p < i ==> (#[trigger] data@[p])@.len() == c,
                forall|p: int, q: int|
                    0 <= p < i && 0 <= q < c ==> is_conjugate(self@[p][q], #[trigger] data@[p]@[q]),
            decreases r - i,
        {
            let mut line: Vec<T> = Vec::new();
            let mut j: usize = 0;
            while j < c
                invariant
                    j <= c,
                    i < r,
                    self.wf(),
                    r == self.spec_rows(),
                    c == self.spec_cols(),
                    line@.len() == j,
                    forall|q: int| 0 <= q < j ==> is_conjugate(self@[i as int][q], #[trigger] line@[q]),
                decreases c - j,
            {
                line.push(self.at(i, j).conjugate());
                j = j + 1;
            }
            data.push(line);
            i = i + 1;
        }
        let m = Matrix { data };
        assert(T::exact() ==> m@ =~~= spec_conjugate(self@));
        m
    }

    /// The matrix of all entries multiplied by `scalar` on the left.
    pub fn scaled_by(&self, scalar: T) -> (m: Matrix<T>)
        requires
            self.wf(),
        ensures
            has_shape(m@, self.spec_rows(), self.spec_cols()),
            entries_hold(m@, |i: int, j: int, v: T| is_product(scalar, self@[i][j], v)),
            agrees(m@, spec_scaled_by(self@, scalar)),
    {
        let (r, c) = self.size();
        let mut data: Vec<Vec<T>> = Vec::new();
        let mut i: usize = 0;
        while i < r
            invariant
                i <= r,
                self.wf(),
                r == self.spec_rows(),
                c == self.spec_cols(),
                data@.len() == i,
                forall|p: int| 0 <= p < i ==> (#[trigger] data@[p])@.len() == c,
                forall|p: int, q: int|
                    0 <= p < i && 0 <= q < c ==> is_product(scalar, self@[p][q], #[trigger] data@[p]@[q]),
            decreases r - i,
        {
            let mut line: Vec<T> = Vec::new();
            let mut j: usize = 0;
            while j < c
                invariant
                    j <= c,
                    i < r,
                    self.wf(),
                    r == self.spec_rows(),
                    c == self.spec_cols(),
                    line@.len() == j,
                    forall|q: int| 0 <= q < j ==> is_product(scalar, self@[i as int][q], #[trigger] line@[q]),
                decreases c - j,
            {
                line.push(scalar.times(self.at(i, j)));
                j = j + 1;
            }
            data.push(line);
            i = i + 1;
        }
        let m = Matrix { data };
        assert(T::exact() ==> m@ =~~= spec_scaled_by(self@, scalar));
        m
    }

    /// The matrix of all entries multiplied by minus one, which is taken as
    /// zero minus one.
    pub fn negative_inverse(&self) -> (m: Matrix<T>)
        requires
            self.wf(),
        ensures
            has_shape(m@, self.spec_rows(), self.spec_cols()),
            exists|n: T| #[trigger]
                is_minus_one(n) && entries_hold(
                    m@,
                    |i: int, j: int, v: T| is_product(n, self@[i][j], v),
                ),
            agrees(m@, spec_negative(self@)),
    {
        let zero = T::zero();
        let one = T::one();
        let minus_one = zero.minus(one);
        assert(is_minus_one(minus_one)) by {
            assert(minus_one_from(zero, one, minus_one));
        }
        self.scaled_by(minus_one)
    }

    /// The matrix of all entries multiplied by `scalar`.
    pub fn scalar_mul(&self, scalar: T) -> (m: Matrix<T>)
        requires
            self.wf(),
        ensures
            has_shape(m@, self.spec_rows(), self.spec_cols()),
            entries_hold(m@, |i: int, j: int, v: T| is_product(self@[i][j], scalar, v)),
            agrees(m@, spec_scalar_mul(self@, scalar)),
    {
        let (r, c) = self.size();
        let mut data: Vec<Vec<T>> = Vec::new();
        let mut i: usize = 0;
        while i < r
            invariant
                i <= r,
                self.wf(),
                r == self.spec_rows(),
                c == self.spec_cols(),
                data@.len() == i,
                forall|p: int| 0 <= p < i ==> (#[trigger] data@[p])@.len() == c,
                forall|p: int, q: int|
                    0 <= p < i && 0 <= q < c ==> is_product(self@[p][q], scalar, #[trigger] data@[p]@[q]),
            decreases r - i,
        {
            let mut line: Vec<T> = Vec::new();
            let mut j: usize = 0;
            while j < c
                invariant
                    j <= c,
                    i < r,
                    self.wf(),
                    r == self.spec_rows(),
                    c == self.spec_cols(),
                    line@.len() == j,
                    forall|q: int| 0 <= q < j ==> is_product(self@[i as int][q], scalar, #[trigger] line@[q]),
                decreases c - j,
            {
                line.push(self.at(i, j).times(scalar));
                j = j + 1;
            }
            data.push(line);
            i = i + 1;
        }
        let m = Matrix { data };
        assert(T::exact() ==> m@ =~~= spec_scalar_mul(self@, scalar));
        m
    }

    /// The entry-wise sum of two matrices of one shape.
    pub fn sum(&self, other: &Matrix<T>) -> (m: Matrix<T>)
        requires
            self.wf(),
            other.wf(),
            other.spec_rows() == self.spec_rows(),
            other.spec_cols() == self.spec_cols(),
        ensures
            has_shape(m@, self.spec_rows(), self.spec_cols()),
            entries_hold(m@, |i: int, j: int, v: T| is_sum(self@[i][j], other@[i][j], v)),
            agrees(m@, spec_add(self@, other@)),
    {
        let (r, c) = self.size();
        let mut data: Vec<Vec<T>> = Vec::new();
        let mut i: usize = 0;
        while i < r
            invariant
                i <= r,
                self.wf(),
                other.wf(),
                other.spec_rows() == self.spec_rows(),
                other.spec_cols() == self.spec_cols(),
                r == self.spec_rows(),
                c == self.spec_cols(),
                data@.len() == i,
                forall|p: int| 0 <= p < i ==> (#[trigger] data@[p])@.len() == c,
                forall|p: int, q: int|
                    0 <= p < i && 0 <= q < c ==> is_sum(self@[p][q], other@[p][q], #[trigger] data@[p]@[q]),
            decreases r - i,
        {
            let mut line: Vec<T> = Vec::new();
            let mut j: usize = 0;
            while j < c
                invariant
                    j <= c,
                    i < r,
                    self.wf(),
                    other.wf(),
                    other.spec_rows() == self.spec_rows(),
                    other.spec_cols() == self.spec_cols(),
                    r == self.spec_rows(),
                    c == self.spec_cols(),
                    line@.len() == j,
                    forall|q: int| 0 <= q < j ==> is_sum(self@[i as int][q], other@[i as int][q], #[trigger] line@[q]),
                decreases c - j,
            {
                line.push(self.at(i, j).plus(other.at(i, j)));
                j = j + 1;
            }
            data.push(line);
            i = i + 1;
        }
        let m = Matrix { data };
        assert(T::exact() ==> m@ =~~= spec_add(self@, other@));
        m
    }

    /// The entry-wise difference of two matrices of one shape.
    pub fn difference(&self, other: &Matrix<T>) -> (m: Matrix<T>)
        requires
            self.wf(),
            other.wf(),
            other.spec_rows() == self.spec_rows(),
            other.spec_cols() == self.spec_cols(),
        ensures
            has_shape(m@, self.spec_rows(), self.spec_cols()),
            entries_hold(m@, |i: int, j: int, v: T| is_difference(self@[i][j], other@[i][j], v)),
            agrees(m@, spec_sub(self@, other@)),
    {
        let (r, c) = self.size();
        let mut data: Vec<Vec<T>> = Vec::new();
        let mut i: usize = 0;
        while i < r
            invariant
                i <= r,
                self.wf(),
                other.wf(),
                other.spec_rows() == self.spec_rows(),
                other.spec_cols() == self.spec_cols(),
                r == self.spec_rows(),
                c == self.spec_cols(),
                data@.len() == i,
                forall|p: int| 0 <= p < i ==> (#[trigger] data@[p])@.len() == c,
                forall|p: int, q: int|
                    0 <= p < i && 0 <= q < c ==> is_difference(self@[p][q], other@[p][q], #[trigger] data@[p]@[q]),
            decreases r - i,
        {
            let mut line: Vec<T> = Vec::new();
            let mut j: usize = 0;
            while j < c
                invariant
                    j <= c,
                    i < r,
                    self.wf(),
                    other.wf(),
                    other.spec_rows() == self.spec_rows(),
                    other.spec_cols() == self.spec_cols(),
                    r == self.spec_rows(),
                    c == self.spec_cols(),
                    line@.len() == j,
                    forall|q: int| 0 <= q < j ==> is_difference(self@[i as int][q], other@[i as int][q], #[trigger] line@[q]),
                decreases c - j,
            {
                line.push(self.at(i, j).minus(other.at(i, j)));
                j = j + 1;
            }
            data.push(line);
            i = i + 1;
        }
        let m = Matrix { data };
        assert(T::exact() ==> m@ =~~= spec_sub(self@, other@));
        m
    }

    /// The adjoint: the conjugate of the transpose.
    pub fn adjoint(&self) -> (m: Matrix<T>)
        requires
            self.wf(),
        ensures
            has_shape(m@, self.spec_cols(), self.spec_rows()),
            entries_hold(m@, |i: int, j: int, v: T| is_conjugate(self@[j][i], v)),
            agrees(m@, spec_adjoint(self@)),
    {
        let conjugated = self.conjugate();
        let m = conjugated.transpose();
        assert forall|i: int, j: int| 0 <= i < rows(m@) && 0 <= j < cols(m@) implies is_conjugate(
            self@[j][i],
            #[trigger] m@[i][j],
        ) by {
            assert(m@[i][j] == conjugated@[j][i]);
        }
        m
    }

    /// The entry-wise sum, or a shape error where the shapes differ.
    pub fn add(&self, other: &Matrix<T>) -> (r: Result<Matrix<T>, ShapeError>)
        requires
            self.wf(),
            other.wf(),
        ensures
            r.is_ok() <==> (self.spec_rows() == other.spec_rows() && self.spec_cols()
                == other.spec_cols()),
            r matches Ok(m) ==> {
                &&& has_shape(m@, self.spec_rows(), self.spec_cols())
                &&& entries_hold(m@, |i: int, j: int, v: T| is_sum(self@[i][j], other@[i][j], v))
                &&& agrees(m@, spec_add(self@, other@))
            },
    {
        let (r, c) = self.size();
        let (r2, c2) = other.size();
        if r != r2 || c != c2 {
            return Err(ShapeError);
        }
        Ok(self.sum(other))
    }

    /// The entry of the product at `(i, j)`.
    fn product_entry(&self, other: &Matrix<T>, i: usize, j: usize) -> (v: T)
        requires
            self.wf(),
            other.wf(),
            self.spec_cols() == other.spec_rows(),
            i < self.spec_rows(),
            j < other.spec_cols(),
        ensures
            is_dot(self@, other@, i as int, j as int, self.spec_cols() as int, v),
    {
        let (r, c) = self.size();
        let mut acc = T::zero();
        let mut k: usize = 0;
        while k < c
            invariant
                k <= c,
                self.wf(),
                other.wf(),
                c == self.spec_cols(),
                c == other.spec_rows(),
                i < self.spec_rows(),
                j < other.spec_cols(),
                is_dot(self@, other@, i as int, j as int, k as int, acc),
            decreases c - k,
        {
            let term = self.at(i, k).times(other.at(k, j));
            let next = acc.plus(term);
            assert(is_dot(self@, other@, i as int, j as int, k + 1, next)) by {
                assert(is_product(self@[i as int][k as int], other@[k as int][j as int], term));
                assert(is_sum(acc, term, next));
            }
            acc = next;
            k = k + 1;
        }
        acc
    }

    /// The product of two matrices whose inner dimensions agree: the entry at
    /// `(i, j)` is the sum of the products of the entries of row `i` of `self`
    /// and of column `j` of `other`, added up from the left, starting at zero.
    pub fn product(&self, other: &Matrix<T>) -> (m: Matrix<T>)
        requires
            self.wf(),
            other.wf(),
            self.spec_cols() == other.spec_rows(),
        ensures
            has_shape(m@, self.spec_rows(), other.spec_cols()),
            entries_hold(m@, |i: int, j: int, v: T| is_dot(self@, other@, i, j, self.spec_cols() as int, v)),
            agrees(m@, spec_multiply(self@, other@)),
    {
        let (r, inner) = self.size();
        let (inner2, c) = other.size();
        proof {
            lemma_dot_exact(self@, other@);
        }
        let mut data: Vec<Vec<T>> = Vec::new();
        let mut i: usize = 0;
        while i < r
            invariant
                i <= r,
                self.wf(),
                other.wf(),
                self.spec_cols() == other.spec_rows(),
                r == self.spec_rows(),
                c == other.spec_cols(),
                data@.len() == i,
                forall|p: int| 0 <= p < i ==> (#[trigger] data@[p])@.len() == c,
                forall|p: int, q: int|
                    0 <= p < i && 0 <= q < c ==> is_dot(self@, other@, p, q, self.spec_cols() as int, #[trigger] data@[p]@[q]),
            decreases r - i,
        {
            let mut line: Vec<T> = Vec::new();
            let mut j: usize = 0;
            while j < c
                invariant
                    j <= c,
                    i < r,
                    self.wf(),
                    other.wf(),
                    self.spec_cols() == other.spec_rows(),
                    r == self.spec_rows(),
                    c == other.spec_cols(),
                    line@.len() == j,
                    forall|q: int| 0 <= q < j ==> is_dot(self@, other@, i as int, q, self.spec_cols() as int, #[trigger] line@[q]),
                decreases c - j,
            {
                line.push(self.product_entry(other, i, j));
                j = j + 1;
            }
            data.push(line);
            i = i + 1;
        }
        let m = Matrix { data };
        assert(T::exact() ==> m@ =~~= spec_multiply(self@, other@));
        m
    }

    /// The matrix product, or a shape error where the number of columns of
    /// `self` is not the number of rows of `other`.
    pub fn multiply(&self, other: &Matrix<T>) -> (r: Result<Matrix<T>, ShapeError>)
        requires
            self.wf(),
            other.wf(),
        ensures
            r.is_ok() <==> self.spec_cols() == other.spec_rows(),
            r matches Ok(m) ==> {
                &&& has_shape(m@, self.spec_rows(), other.spec_cols())
                &&& entries_hold(
                    m@,
                    |i: int, j: int, v: T| is_dot(self@, other@, i, j, self.spec_cols() as int, v),
                )
                &&& agrees(m@, spec_multiply(self@, other@))
            },
    {
        let (r, c) = self.size();
        let (r2, c2) = other.size();
        if c != r2 {
            return Err(ShapeError);
        }
        Ok(self.product(other))
    }

    /// The sum of the products of the entries of two matrices of one shape,
    /// place by place, row after row, added up from the left, starting at zero.
    pub fn dot(&self, other: Matrix<T>) -> (v: T)
        requires
            self.wf(),
            other.wf(),
            other.spec_rows() == self.spec_rows(),
            other.spec_cols() == self.spec_cols(),
        ensures
            is_entry_sum(self@, other@, (self.spec_rows() * self.spec_cols()) as int, v),
            T::exact() ==> v == spec_dot(self@, other@),
    {
        let (r, c) = self.size();
        let mut acc = T::zero();
        let mut i: usize = 0;
        proof {
            assert(0 * c == 0);
        }
        while i < r
            invariant
                i <= r,
                self.wf(),
                other.wf(),
                other.spec_rows() == self.spec_rows(),
                other.spec_cols() == self.spec_cols(),
                r == self.spec_rows(),
                c == self.spec_cols(),
                is_entry_sum(self@, other@, i * c, acc),
            decreases r - i,
        {
            let mut j: usize = 0;
            while j < c
                invariant
                    j <= c,
                    i < r,
                    self.wf(),
                    other.wf(),
                    other.spec_rows() == self.spec_rows(),
                    other.spec_cols() == self.spec_cols(),
                    r == self.spec_rows(),
                    c == self.spec_cols(),
                    is_entry_sum(self@, other@, i * c + j, acc),
                decreases c - j,
            {
                proof {
                    vstd::arithmetic::div_mod::lemma_fundamental_div_mod_converse(
                        i * c + j,
                        c as int,
                        i as int,
                        j as int,
                    );
                    assert(c * i == i * c) by (nonlinear_arith);
                }
                let term = self.at(i, j).times(other.at(i, j));
                let next = acc.plus(term);
                assert(is_entry_sum(self@, other@, i * c + j + 1, next)) by {
                    assert(is_product(self@[i as int][j as int], other@[i as int][j as int], term));
                    assert(is_sum(acc, term, next));
                }
                acc = next;
                j = j + 1;
            }
            proof {
                assert((i + 1) * c == i * c + c) by (nonlinear_arith);
            }
            i = i + 1;
        }
        proof {
            if T::exact() {
                lemma_entry_sum_exact(self@, other@, (r * c) as int, acc);
            }
        }
        acc
    }

    /// The Kronecker product: the entry at `(i * rows + k, j * cols + l)`,
    /// with the rows and columns of `other`, is the product of the entry of
    /// `self` at `(i, j)` and that of `other` at `(k, l)`.
    pub fn tensor(&self, other: &Matrix<T>) -> (m: Matrix<T>)
        requires
            self.wf(),
            other.wf(),
            self.spec_rows() * other.spec_rows() <= usize::MAX,
            self.spec_cols() * other.spec_cols() <= usize::MAX,
        ensures
            is_tensor_of(self@, other@, m@),
            agrees(m@, spec_tensor(self@, other@)),
    {
        let (ra, ca) = self.size();
        let (rb, cb) = other.size();
        let r: usize = ra * rb;
        let c: usize = ca * cb;
        proof {
            assert(ra * rb > 0) by (nonlinear_arith)
                requires
                    ra > 0,
                    rb > 0,
            ;
            assert(ca * cb > 0) by (nonlinear_arith)
                requires
                    ca > 0,
                    cb > 0,
            ;
        }
        let mut data: Vec<Vec<T>> = Vec::new();
        let mut i: usize = 0;
        while i < r
            invariant
                i <= r,
                self.wf(),
                other.wf(),
                ra == self.spec_rows(),
                ca == self.spec_cols(),
                rb == other.spec_rows(),
                cb == other.spec_cols(),
                r == ra * rb,
                c == ca * cb,
                data@.len() == i,
                forall|p: int| 0 <= p < i ==> (#[trigger] data@[p])@.len() == c,
                forall|p: int, q: int|
                    0 <= p < i && 0 <= q < c ==> is_product(
                        self@[p / (rb as int)][q / (cb as int)],
                        other@[p % (rb as int)][q % (cb as int)],
                        #[trigger] data@[p]@[q],
                    ),
            decreases r - i,
        {
            let mut line: Vec<T> = Vec::new();
            let mut j: usize = 0;
            proof {
                lemma_quotient_below(i as int, ra as int, rb as int);
            }
            while j < c
                invariant
                    j <= c,
                    i < r,
                    i / rb < ra,
                    self.wf(),
                    other.wf(),
                    ra == self.spec_rows(),
                    ca == self.spec_cols(),
                    rb == other.spec_rows(),
                    cb == other.spec_cols(),
                    r == ra * rb,
                    c == ca * cb,
                    line@.len() == j,
                    forall|q: int|
                        0 <= q < j ==> is_product(
                            self@[(i as int) / (rb as int)][q / (cb as int)],
                            other@[(i as int) % (rb as int)][q % (cb as int)],
                            #[trigger] line@[q],
                        ),
                decreases c - j,
            {
                proof {
                    lemma_quotient_below(j as int, ca as int, cb as int);
                }
                line.push(self.at(i / rb, j / cb).times(other.at(i % rb, j % cb)));
                j = j + 1;
            }
            data.push(line);
            i = i + 1;
        }
        let m = Matrix { data };
        assert(T::exact() ==> m@ =~~= spec_tensor(self@, other@));
        m
    }

    /// Whether the matrix is square and every entry counts as equal to the
    /// entry of the adjoint in its place.
    pub fn is_hermitian(&self) -> (r: bool)
        requires
            self.wf(),
        ensures
            is_hermitian_result(self@, r),
            T::exact() ==> r == spec_is_hermitian(self@),
    {
        let (n, c) = self.size();
        if n != c {
            return false;
        }
        let adj = self.adjoint();
        let r = self.near(&adj);
        assert(is_adjoint_of(self@, adj@));
        r
    }

    /// Whether every entry counts as equal to the entry of `other` in its
    /// place. The entries are compared row after row, up to the first pair
    /// that does not count as equal.
    pub fn near(&self, other: &Matrix<T>) -> (r: bool)
        requires
            self.wf(),
            other.wf(),
            other.spec_rows() == self.spec_rows(),
            other.spec_cols() == self.spec_cols(),
        ensures
            is_near_result(self@, other@, r),
            T::exact() ==> r == all_near(self@, other@),
    {
        let (n, c) = self.size();
        let mut i: usize = 0;
        while i < n
            invariant
                i <= n,
                self.wf(),
                other.wf(),
                other.spec_rows() == self.spec_rows(),
                other.spec_cols() == self.spec_cols(),
                n == self.spec_rows(),
                c == self.spec_cols(),
                forall|p: int, q: int|
                    0 <= p < i && 0 <= q < c ==> is_near(
                        #[trigger] self@[p][q],
                        other@[p][q],
                        true,
                    ),
            decreases n - i,
        {
            let mut j: usize = 0;
            while j < c
                invariant
                    j <= c,
                    i < n,
                    self.wf(),
                    other.wf(),
                    other.spec_rows() == self.spec_rows(),
                    other.spec_cols() == self.spec_cols(),
                    n == self.spec_rows(),
                    c == self.spec_cols(),
                    forall|p: int, q: int|
                        0 <= p < i && 0 <= q < c ==> is_near(
                            #[trigger] self@[p][q],
                            other@[p][q],
                            true,
                        ),
                    forall|q: int|
                        0 <= q < j ==> is_near(
                            #[trigger] self@[i as int][q],
                            other@[i as int][q],
                            true,
                        ),
                decreases c - j,
            {
                if !self.at(i, j).near(other.at(i, j)) {
                    assert(differ_at(self@, other@, i as int, j as int));
                    return false;
                }
                j = j + 1;
            }
            i = i + 1;
        }
        true
    }

    /// Whether the product of the matrix and its adjoint counts as equal to
    /// the identity.
    pub fn is_unitary(&self) -> (r: bool)
        requires
            self.wf(),
        ensures
            exists|adj: Seq<Seq<T>>, product: Seq<Seq<T>>, id: Seq<Seq<T>>| #[trigger]
                is_unitary_result(self@, adj, product, id, r),
            T::exact() ==> r == spec_is_unitary(self@),
    {
        let (n, c) = self.size();
        let adj = self.adjoint();
        let prod = self.product(&adj);
        let id = Matrix::<T>::identity(n);
        let r = prod.near(&id);
        assert(is_unitary_result(self@, adj@, prod@, id@, r));
        r
    }
}

impl<T: Scalar> core::ops::Add for Matrix<T> {
    type Output = Matrix<T>;

    /// The entry-wise sum of two matrices of one shape.
    fn add(self, other: Matrix<T>) -> (m: Matrix<T>)
        ensures
            has_shape(m@, self.spec_rows(), self.spec_cols()),
            entries_hold(m@, |i: int, j: int, v: T| is_sum(self@[i][j], other@[i][j], v)),
            agrees(m@, spec_add(self@, other@)),
    {
        self.sum(&other)
    }
}

impl<T: Scalar> vstd::std_specs::ops::AddSpecImpl for Matrix<T> {
    open spec fn obeys_add_spec() -> bool {
        false
    }

    open spec fn add_req(self, other: Matrix<T>) -> bool {
        &&& self.wf()
        &&& other.wf()
        &&& other.spec_rows() == self.spec_rows()
        &&& other.spec_cols() == self.spec_cols()
    }

    open spec fn add_spec(self, other: Matrix<T>) -> Matrix<T> {
        arbitrary()
    }
}

impl<T: Scalar> core::ops::Mul for Matrix<T> {
    type Output = Matrix<T>;

    /// The product of two matrices whose inner dimensions agree.
    fn mul(self, other: Matrix<T>) -> (m: Matrix<T>)
        ensures
            is_product_of(self@, other@, m@),
            agrees(m@, spec_multiply(self@, other@)),
    {
        self.product(&other)
    }
}

impl<T: Scalar> vstd::std_specs::ops::MulSpecImpl for Matrix<T> {
    open spec fn obeys_mul_spec() -> bool {
        false
    }

    open spec fn mul_req(self, other: Matrix<T>) -> bool {
        &&& self.wf()
        &&& other.wf()
        &&& self.spec_cols() == other.spec_rows()
    }

    open spec fn mul_spec(self, other: Matrix<T>) -> Matrix<T> {
        arbitrary()
    }
}

/// A number below `a * b` divided by `b` is below `a`.
pub proof fn lemma_quotient_below(i: int, a: int, b: int)
    requires
        0 <= i < a * b,
        b > 0,
    ensures
        0 <= i / b < a,
        0 <= i % b < b,
{
    vstd::arithmetic::div_mod::lemma_fundamental_div_mod(i, b);
    vstd::arithmetic::div_mod::lemma_mod_bound(i, b);
    let q = i / b;
    assert(q < a) by (nonlinear_arith)
        requires
            i == b * q + i % b,
            0 <= i % b,
            i < a * b,
            b > 0,
    ;
    assert(q >= 0) by (nonlinear_arith)
        requires
            i == b * q + i % b,
            i % b < b,
            i >= 0,
            b > 0,
    ;
}

} // verus!
