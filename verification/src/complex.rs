//! Scalars: the numbers that state vectors and operators hold.
//!
//! The simulator is written once for every scalar type. Of every type it is
//! stated which operation of the type gives each result: `is_sum(a, b, r)`
//! says that `r` meets what the type promises of `a.plus(b)`, and so on, so
//! such a statement is as strong as the type's own contracts. A type says
//! through [`Scalar::exact`] whether its operations compute exactly what its
//! spec functions say; of such a type the values themselves are stated.
//! [`C`], the complex numbers with integer parts, is one. A type of rounded
//! numbers implements the operations and leaves the spec functions alone.

use vstd::prelude::*;

verus! {

/// The arithmetic that the simulator asks of the entries of a matrix.
pub trait Scalar: Copy {
    /// Whether the operations compute exactly what the spec functions say.
    open spec fn exact() -> bool {
        false
    }

    /// The number zero.
    open spec fn spec_zero() -> Self {
        arbitrary()
    }

    /// The number one.
    open spec fn spec_one() -> Self {
        arbitrary()
    }

    /// The sum.
    open spec fn spec_plus(self, other: Self) -> Self {
        arbitrary()
    }

    /// The difference.
    open spec fn spec_minus(self, other: Self) -> Self {
        arbitrary()
    }

    /// The product.
    open spec fn spec_times(self, other: Self) -> Self {
        arbitrary()
    }

    /// The complex conjugate.
    open spec fn spec_conjugate(self) -> Self {
        arbitrary()
    }

    /// Whether two numbers count as equal.
    open spec fn spec_near(self, other: Self) -> bool {
        arbitrary()
    }

    /// The squared modulus as a weight for sampling.
    open spec fn spec_weight(self) -> u64 {
        arbitrary()
    }

    /// The number `e^(2 pi i turn / turns) / sqrt(scale)`, where the type holds it.
    open spec fn spec_polar(scale: u64, turn: u64, turns: u64) -> Option<Self> {
        arbitrary()
    }

    fn zero() -> (r: Self)
        ensures
            Self::exact() ==> r == Self::spec_zero(),
    ;

    fn one() -> (r: Self)
        ensures
            Self::exact() ==> r == Self::spec_one(),
    ;

    fn plus(self, other: Self) -> (r: Self)
        ensures
            Self::exact() ==> r == self.spec_plus(other),
    ;

    fn minus(self, other: Self) -> (r: Self)
        ensures
            Self::exact() ==> r == self.spec_minus(other),
    ;

    fn times(self, other: Self) -> (r: Self)
        ensures
            Self::exact() ==> r == self.spec_times(other),
    ;

    fn conjugate(self) -> (r: Self)
        ensures
            Self::exact() ==> r == self.spec_conjugate(),
    ;

    /// Whether two numbers count as equal: exactly, or within the tolerance
    /// of a type of rounded numbers.
    fn near(self, other: Self) -> (r: bool)
        ensures
            Self::exact() ==> r == self.spec_near(other),
    ;

    /// The squared modulus as a weight for sampling: an outcome is drawn
    /// with a chance in proportion to the weight of its amplitude.
    fn weight(self) -> (r: u64)
        ensures
            Self::exact() ==> r == self.spec_weight(),
    ;

    /// The number `e^(2 pi i turn / turns) / sqrt(scale)`, or `None` where
    /// the type cannot hold it.
    fn polar(scale: u64, turn: u64, turns: u64) -> (r: Option<Self>)
        ensures
            Self::exact() ==> r == Self::spec_polar(scale, turn, turns),
    ;
}

/// `r` is a result of `T::zero`.
pub open spec fn is_zero<T: Scalar>(r: T) -> bool {
    call_ensures(T::zero, (), r)
}

/// `r` is a result of `T::one`.
pub open spec fn is_one<T: Scalar>(r: T) -> bool {
    call_ensures(T::one, (), r)
}

/// `r` is a result of `a.plus(b)`.
pub open spec fn is_sum<T: Scalar>(a: T, b: T, r: T) -> bool {
    call_ensures(T::plus, (a, b), r)
}

/// `r` is a result of `a.minus(b)`.
pub open spec fn is_difference<T: Scalar>(a: T, b: T, r: T) -> bool {
    call_ensures(T::minus, (a, b), r)
}

/// `r` is a result of `a.times(b)`.
pub open spec fn is_product<T: Scalar>(a: T, b: T, r: T) -> bool {
    call_ensures(T::times, (a, b), r)
}

/// `r` is a result of `a.conjugate()`.
pub open spec fn is_conjugate<T: Scalar>(a: T, r: T) -> bool {
    call_ensures(T::conjugate, (a,), r)
}

/// `r` is a result of `a.near(b)`.
pub open spec fn is_near<T: Scalar>(a: T, b: T, r: bool) -> bool {
    call_ensures(T::near, (a, b), r)
}

/// `w` is a result of `a.weight()`.
pub open spec fn is_weight<T: Scalar>(a: T, w: u64) -> bool {
    call_ensures(T::weight, (a,), w)
}

/// `r` is a result of `T::polar(scale, turn, turns)`.
pub open spec fn is_polar<T: Scalar>(scale: u64, turn: u64, turns: u64, r: Option<T>) -> bool {
    call_ensures(T::polar, (scale, turn, turns), r)
}

/// Sums do not depend on the order of their terms.
#[verifier::opaque]
pub open spec fn law_plus_commutes<T: Scalar>() -> bool {
    forall|a: T, b: T| #![trigger a.spec_plus(b)] a.spec_plus(b) == b.spec_plus(a)
}

/// Sums of three do not depend on the grouping.
#[verifier::opaque]
pub open spec fn law_plus_associates<T: Scalar>() -> bool {
    forall|a: T, b: T, c: T| #![trigger a.spec_plus(b).spec_plus(c)] a.spec_plus(b).spec_plus(c) == a.spec_plus(b.spec_plus(c))
}

/// Adding zero changes nothing.
#[verifier::opaque]
pub open spec fn law_plus_zero<T: Scalar>() -> bool {
    forall|a: T| #![trigger a.spec_plus(T::spec_zero())] a.spec_plus(T::spec_zero()) == a
}

/// A number minus itself is zero.
#[verifier::opaque]
pub open spec fn law_minus_self<T: Scalar>() -> bool {
    forall|a: T| #![trigger a.spec_minus(a)] a.spec_minus(a) == T::spec_zero()
}

/// Adding back what was subtracted gives the number back.
#[verifier::opaque]
pub open spec fn law_minus_plus<T: Scalar>() -> bool {
    forall|a: T, b: T| #![trigger a.spec_minus(b).spec_plus(b)] a.spec_minus(b).spec_plus(b) == a
}

/// Products do not depend on the order of their factors.
#[verifier::opaque]
pub open spec fn law_times_commutes<T: Scalar>() -> bool {
    forall|a: T, b: T| #![trigger a.spec_times(b)] a.spec_times(b) == b.spec_times(a)
}

/// Products of three do not depend on the grouping.
#[verifier::opaque]
pub open spec fn law_times_associates<T: Scalar>() -> bool {
    forall|a: T, b: T, c: T| #![trigger a.spec_times(b).spec_times(c)] a.spec_times(b).spec_times(c) == a.spec_times(b.spec_times(c))
}

/// Multiplying by one changes nothing.
#[verifier::opaque]
pub open spec fn law_times_one<T: Scalar>() -> bool {
    forall|a: T| #![trigger a.spec_times(T::spec_one())] a.spec_times(T::spec_one()) == a
}

/// Multiplying by zero gives zero.
#[verifier::opaque]
pub open spec fn law_times_zero<T: Scalar>() -> bool {
    forall|a: T| #![trigger a.spec_times(T::spec_zero())] a.spec_times(T::spec_zero()) == T::spec_zero()
}

/// A product with a sum is the sum of the products.
#[verifier::opaque]
pub open spec fn law_distributes<T: Scalar>() -> bool {
    forall|a: T, b: T, c: T| #![trigger a.spec_plus(b).spec_times(c)] a.spec_plus(b).spec_times(c) == a.spec_times(c).spec_plus(b.spec_times(c))
}

/// Conjugating twice gives the number back.
#[verifier::opaque]
pub open spec fn law_conjugate_twice<T: Scalar>() -> bool {
    forall|a: T| #![trigger a.spec_conjugate().spec_conjugate()] a.spec_conjugate().spec_conjugate() == a
}

/// The conjugate of a sum is the sum of the conjugates.
#[verifier::opaque]
pub open spec fn law_conjugate_plus<T: Scalar>() -> bool {
    forall|a: T, b: T| #![trigger a.spec_plus(b).spec_conjugate()] a.spec_plus(b).spec_conjugate() == a.spec_conjugate().spec_plus(b.spec_conjugate())
}

/// The conjugate of a product is the product of the conjugates.
#[verifier::opaque]
pub open spec fn law_conjugate_times<T: Scalar>() -> bool {
    forall|a: T, b: T| #![trigger a.spec_times(b).spec_conjugate()] a.spec_times(b).spec_conjugate() == a.spec_conjugate().spec_times(b.spec_conjugate())
}

/// Two numbers count as equal only if they are equal.
#[verifier::opaque]
pub open spec fn law_near_is_equal<T: Scalar>() -> bool {
    forall|a: T, b: T| #![trigger a.spec_near(b)] a.spec_near(b) == (a == b)
}

/// The laws of a commutative ring with conjugation, on an exact type.
pub open spec fn is_ring<T: Scalar>() -> bool {
    &&& T::exact()
    &&& law_plus_commutes::<T>()
    &&& law_plus_associates::<T>()
    &&& law_plus_zero::<T>()
    &&& law_minus_self::<T>()
    &&& law_minus_plus::<T>()
    &&& law_times_commutes::<T>()
    &&& law_times_associates::<T>()
    &&& law_times_one::<T>()
    &&& law_times_zero::<T>()
    &&& law_distributes::<T>()
    &&& law_conjugate_twice::<T>()
    &&& law_conjugate_plus::<T>()
    &&& law_conjugate_times::<T>()
    &&& law_near_is_equal::<T>()
    &&& T::spec_zero().spec_conjugate() == T::spec_zero()
    &&& T::spec_one().spec_conjugate() == T::spec_one()
}

proof fn lemma_plus_commutes<T: Scalar>(a: T, b: T)
    requires
        law_plus_commutes::<T>(),
    ensures
        a.spec_plus(b) == b.spec_plus(a),
{
    reveal(law_plus_commutes);
}

proof fn lemma_plus_associates<T: Scalar>(a: T, b: T, c: T)
    requires
        law_plus_associates::<T>(),
    ensures
        a.spec_plus(b).spec_plus(c) == a.spec_plus(b.spec_plus(c)),
{
    reveal(law_plus_associates);
}

proof fn lemma_plus_zero<T: Scalar>(a: T)
    requires
        law_plus_zero::<T>(),
    ensures
        a.spec_plus(T::spec_zero()) == a,
{
    reveal(law_plus_zero);
}

proof fn lemma_minus_self<T: Scalar>(a: T)
    requires
        law_minus_self::<T>(),
    ensures
        a.spec_minus(a) == T::spec_zero(),
{
    reveal(law_minus_self);
}

proof fn lemma_minus_plus<T: Scalar>(a: T, b: T)
    requires
        law_minus_plus::<T>(),
    ensures
        a.spec_minus(b).spec_plus(b) == a,
{
    reveal(law_minus_plus);
}

proof fn lemma_times_commutes<T: Scalar>(a: T, b: T)
    requires
        law_times_commutes::<T>(),
    ensures
        a.spec_times(b) == b.spec_times(a),
{
    reveal(law_times_commutes);
}

proof fn lemma_times_associates<T: Scalar>(a: T, b: T, c: T)
    requires
        law_times_associates::<T>(),
    ensures
        a.spec_times(b).spec_times(c) == a.spec_times(b.spec_times(c)),
{
    reveal(law_times_associates);
}

proof fn lemma_times_one<T: Scalar>(a: T)
    requires
        law_times_one::<T>(),
    ensures
        a.spec_times(T::spec_one()) == a,
{
    reveal(law_times_one);
}

proof fn lemma_times_zero<T: Scalar>(a: T)
    requires
        law_times_zero::<T>(),
    ensures
        a.spec_times(T::spec_zero()) == T::spec_zero(),
{
    reveal(law_times_zero);
}

proof fn lemma_distributes<T: Scalar>(a: T, b: T, c: T)
    requires
        law_distributes::<T>(),
    ensures
        a.spec_plus(b).spec_times(c) == a.spec_times(c).spec_plus(b.spec_times(c)),
{
    reveal(law_distributes);
}

proof fn lemma_conjugate_twice<T: Scalar>(a: T)
    requires
        law_conjugate_twice::<T>(),
    ensures
        a.spec_conjugate().spec_conjugate() == a,
{
    reveal(law_conjugate_twice);
}

proof fn lemma_conjugate_plus<T: Scalar>(a: T, b: T)
    requires
        law_conjugate_plus::<T>(),
    ensures
        a.spec_plus(b).spec_conjugate() == a.spec_conjugate().spec_plus(b.spec_conjugate()),
{
    reveal(law_conjugate_plus);
}

proof fn lemma_conjugate_times<T: Scalar>(a: T, b: T)
    requires
        law_conjugate_times::<T>(),
    ensures
        a.spec_times(b).spec_conjugate() == a.spec_conjugate().spec_times(b.spec_conjugate()),
{
    reveal(law_conjugate_times);
}

proof fn lemma_near_is_equal<T: Scalar>(a: T, b: T)
    requires
        law_near_is_equal::<T>(),
    ensures
        a.spec_near(b) == (a == b),
{
    reveal(law_near_is_equal);
}

/// Addition in a ring commutes and associates, and zero is neutral.
pub proof fn lemma_ring_plus<T: Scalar>(a: T, b: T, c: T)
    requires
        is_ring::<T>(),
    ensures
        a.spec_plus(b) == b.spec_plus(a),
        a.spec_plus(b).spec_plus(c) == a.spec_plus(b.spec_plus(c)),
        a.spec_plus(T::spec_zero()) == a,
        T::spec_zero().spec_plus(a) == a,
{
    lemma_plus_commutes(a, b);
    lemma_plus_associates(a, b, c);
    lemma_plus_zero(a);
    lemma_plus_commutes(T::spec_zero(), a);
}

/// Subtraction in a ring undoes addition.
pub proof fn lemma_ring_minus<T: Scalar>(a: T, b: T)
    requires
        is_ring::<T>(),
    ensures
        a.spec_minus(a) == T::spec_zero(),
        a.spec_minus(b).spec_plus(b) == a,
{
    lemma_minus_self(a);
    lemma_minus_plus(a, b);
}

/// Multiplication in a ring commutes and associates, one is neutral and
/// zero absorbs.
pub proof fn lemma_ring_times<T: Scalar>(a: T, b: T, c: T)
    requires
        is_ring::<T>(),
    ensures
        a.spec_times(b) == b.spec_times(a),
        a.spec_times(b).spec_times(c) == a.spec_times(b.spec_times(c)),
        a.spec_times(T::spec_one()) == a,
        T::spec_one().spec_times(a) == a,
        a.spec_times(T::spec_zero()) == T::spec_zero(),
        T::spec_zero().spec_times(a) == T::spec_zero(),
{
    lemma_times_commutes(a, b);
    lemma_times_associates(a, b, c);
    lemma_times_one(a);
    lemma_times_zero(a);
    lemma_times_commutes(T::spec_one(), a);
    lemma_times_commutes(T::spec_zero(), a);
}

/// Multiplication in a ring distributes over addition on both sides.
pub proof fn lemma_ring_distributes<T: Scalar>(a: T, b: T, c: T)
    requires
        is_ring::<T>(),
    ensures
        a.spec_plus(b).spec_times(c) == a.spec_times(c).spec_plus(b.spec_times(c)),
        c.spec_times(a.spec_plus(b)) == c.spec_times(a).spec_plus(c.spec_times(b)),
{
    lemma_distributes(a, b, c);
    lemma_times_commutes(c, a.spec_plus(b));
    lemma_times_commutes(c, a);
    lemma_times_commutes(c, b);
}

/// Conjugation in a ring undoes itself and goes through sums and products.
pub proof fn lemma_ring_conjugate<T: Scalar>(a: T, b: T)
    requires
        is_ring::<T>(),
    ensures
        a.spec_conjugate().spec_conjugate() == a,
        a.spec_plus(b).spec_conjugate() == a.spec_conjugate().spec_plus(b.spec_conjugate()),
        a.spec_times(b).spec_conjugate() == a.spec_conjugate().spec_times(b.spec_conjugate()),
        T::spec_zero().spec_conjugate() == T::spec_zero(),
        T::spec_one().spec_conjugate() == T::spec_one(),
{
    lemma_conjugate_twice(a);
    lemma_conjugate_plus(a, b);
    lemma_conjugate_times(a, b);
}

/// In a ring two numbers count as equal only if they are equal.
pub proof fn lemma_ring_near<T: Scalar>(a: T, b: T)
    requires
        is_ring::<T>(),
    ensures
        a.spec_near(b) == (a == b),
{
    lemma_near_is_equal(a, b);
}

/// A complex number `a + bi` with integer parts.
///
/// Sums, differences and products wrap around at 64 bits in each part, as
/// `i64::wrapping_add` does. With that every law of a commutative ring holds
/// without exception.
#[derive(Debug, Copy, Clone, PartialEq, Eq, Structural)]
pub struct C {
    pub a: i64,
    pub b: i64,
}

/// The number of values of a part.
pub open spec fn modulus_of_parts() -> int {
    0x1_0000_0000_0000_0000
}

/// The value of a part that stands for the integer `v`: the one that differs
/// from `v` by a multiple of 2^64.
pub open spec fn wrap(v: int) -> i64 {
    vstd::wrapping::i64_specs::signed_crop(v)
}

/// How many times 2^64 is taken from `v` to wrap it.
pub open spec fn carry(v: int) -> int {
    (v - wrap(v)) / modulus_of_parts()
}

/// Wrapping changes a number by a multiple of 2^64.
pub proof fn lemma_wrap_carry(v: int)
    ensures
        wrap(v) == v - carry(v) * modulus_of_parts(),
{
    let m = modulus_of_parts();
    vstd::arithmetic::div_mod::lemma_fundamental_div_mod(v, m);
    let q = v / m;
    let r = v % m;
    assert(v == m * q + r);
    if r > i64::MAX {
        assert(wrap(v) == r - m);
        assert(v - wrap(v) == m * (q + 1)) by (nonlinear_arith)
            requires
                v == m * q + r,
                wrap(v) == r - m,
        ;
        vstd::arithmetic::div_mod::lemma_div_multiples_vanish(q + 1, m);
        assert(m * (q + 1) == (q + 1) * m) by (nonlinear_arith);
    } else {
        assert(wrap(v) == r);
        assert(v - wrap(v) == m * q);
        vstd::arithmetic::div_mod::lemma_div_multiples_vanish(q, m);
        assert(m * q == q * m) by (nonlinear_arith);
    }
}

/// Numbers that differ by a multiple of 2^64 wrap to the same value.
pub proof fn lemma_wrap_congruent(u: int, v: int, k: int)
    requires
        u == v + k * modulus_of_parts(),
    ensures
        wrap(u) == wrap(v),
{
    let m = modulus_of_parts();
    vstd::arithmetic::div_mod::lemma_mod_multiples_vanish(k, v, m);
    assert(m * k + v == v + k * m) by (nonlinear_arith);
}

/// A value of a part wraps to itself.
pub proof fn lemma_wrap_small(v: i64)
    ensures
        wrap(v as int) == v,
{
    let m = modulus_of_parts();
    if v >= 0 {
        vstd::arithmetic::div_mod::lemma_small_mod(v as nat, m as nat);
    } else {
        vstd::arithmetic::div_mod::lemma_small_mod((v + m) as nat, m as nat);
        vstd::arithmetic::div_mod::lemma_mod_multiples_vanish(1, v as int, m);
    }
}

proof fn lemma_wrapping_add(x: i64, y: i64)
    ensures
        x.wrapping_add(y) == wrap(x + y),
{
    let m = modulus_of_parts();
    let r = x.wrapping_add(y);
    lemma_wrap_small(r);
    if x + y > i64::MAX {
        lemma_wrap_congruent(x + y, r as int, 1);
    } else if x + y < i64::MIN {
        lemma_wrap_congruent(x + y, r as int, -1);
    }
}

proof fn lemma_wrapping_sub(x: i64, y: i64)
    ensures
        x.wrapping_sub(y) == wrap(x - y),
{
    let m = modulus_of_parts();
    let r = x.wrapping_sub(y);
    lemma_wrap_small(r);
    if x - y > i64::MAX {
        lemma_wrap_congruent(x - y, r as int, 1);
    } else if x - y < i64::MIN {
        lemma_wrap_congruent(x - y, r as int, -1);
    }
}

impl C {
    /// The number `a + bi`.
    pub fn new(a: i64, b: i64) -> (r: C)
        ensures
            r == (C { a, b }),
    {
        C { a, b }
    }
}

impl Scalar for C {
    open spec fn exact() -> bool {
        true
    }

    open spec fn spec_zero() -> C {
        C { a: 0, b: 0 }
    }

    open spec fn spec_one() -> C {
        C { a: 1, b: 0 }
    }

    open spec fn spec_plus(self, other: C) -> C {
        C { a: wrap(self.a + other.a), b: wrap(self.b + other.b) }
    }

    open spec fn spec_minus(self, other: C) -> C {
        C { a: wrap(self.a - other.a), b: wrap(self.b - other.b) }
    }

    open spec fn spec_times(self, other: C) -> C {
        C {
            a: wrap(self.a * other.a - self.b * other.b),
            b: wrap(self.a * other.b + self.b * other.a),
        }
    }

    open spec fn spec_conjugate(self) -> C {
        C { a: self.a, b: wrap(-self.b) }
    }

    open spec fn spec_near(self, other: C) -> bool {
        self == other
    }

    open spec fn spec_weight(self) -> u64 {
        let w = self.a * self.a + self.b * self.b;
        if w <= u64::MAX {
            w as u64
        } else {
            u64::MAX
        }
    }

    open spec fn spec_polar(scale: u64, turn: u64, turns: u64) -> Option<C> {
        if scale != 1 || turns == 0 || (4 * turn) % (turns as int) != 0 {
            None
        } else {
            let quarter = ((4 * turn) / (turns as int)) % 4;
            if quarter == 0 {
                Some(C { a: 1, b: 0 })
            } else if quarter == 1 {
                Some(C { a: 0, b: 1 })
            } else if quarter == 2 {
                Some(C { a: (-1i64), b: 0 })
            } else {
                Some(C { a: 0, b: (-1i64) })
            }
        }
    }

    fn zero() -> (r: C) {
        C { a: 0, b: 0 }
    }

    fn one() -> (r: C) {
        C { a: 1, b: 0 }
    }

    fn plus(self, other: C) -> (r: C) {
        proof {
            lemma_wrapping_add(self.a, other.a);
            lemma_wrapping_add(self.b, other.b);
        }
        C { a: self.a.wrapping_add(other.a), b: self.b.wrapping_add(other.b) }
    }

    fn minus(self, other: C) -> (r: C) {
        proof {
            lemma_wrapping_sub(self.a, other.a);
            lemma_wrapping_sub(self.b, other.b);
        }
        C { a: self.a.wrapping_sub(other.a), b: self.b.wrapping_sub(other.b) }
    }

    fn times(self, other: C) -> (r: C) {
        let ac = self.a.wrapping_mul(other.a);
        let bd = self.b.wrapping_mul(other.b);
        let ad = self.a.wrapping_mul(other.b);
        let bc = self.b.wrapping_mul(other.a);
        proof {
            let m = modulus_of_parts();
            lemma_wrapping_sub(ac, bd);
            lemma_wrapping_add(ad, bc);
            lemma_wrap_carry(self.a * other.a);
            lemma_wrap_carry(self.b * other.b);
            lemma_wrap_carry(self.a * other.b);
            lemma_wrap_carry(self.b * other.a);
            let k1 = carry(self.a * other.a);
            let k2 = carry(self.b * other.b);
            let k3 = carry(self.a * other.b);
            let k4 = carry(self.b * other.a);
            assert(ac - bd == (self.a * other.a - self.b * other.b) + (k2 - k1) * m)
                by (nonlinear_arith)
                requires
                    ac == self.a * other.a - k1 * m,
                    bd == self.b * other.b - k2 * m,
            ;
            lemma_wrap_congruent(ac - bd, self.a * other.a - self.b * other.b, k2 - k1);
            assert(ad + bc == (self.a * other.b + self.b * other.a) + (-k3 - k4) * m)
                by (nonlinear_arith)
                requires
                    ad == self.a * other.b - k3 * m,
                    bc == self.b * other.a - k4 * m,
            ;
            lemma_wrap_congruent(ad + bc, self.a * other.b + self.b * other.a, -k3 - k4);
        }
        C { a: ac.wrapping_sub(bd), b: ad.wrapping_add(bc) }
    }

    fn conjugate(self) -> (r: C) {
        proof {
            lemma_wrapping_sub(0, self.b);
        }
        C { a: self.a, b: 0i64.wrapping_sub(self.b) }
    }

    fn near(self, other: C) -> (r: bool) {
        self.a == other.a && self.b == other.b
    }

    fn weight(self) -> (r: u64) {
        let x: i128 = self.a as i128;
        let y: i128 = self.b as i128;
        assert(0 <= x * x <= 0x8000_0000_0000_0000 * 0x8000_0000_0000_0000) by (nonlinear_arith)
            requires
                -0x8000_0000_0000_0000 <= x <= 0x8000_0000_0000_0000,
        ;
        assert(0 <= y * y <= 0x8000_0000_0000_0000 * 0x8000_0000_0000_0000) by (nonlinear_arith)
            requires
                -0x8000_0000_0000_0000 <= y <= 0x8000_0000_0000_0000,
        ;
        let xx: u128 = (x * x) as u128;
        let yy: u128 = (y * y) as u128;
        let w: u128 = xx + yy;
        if w <= u64::MAX as u128 {
            w as u64
        } else {
            u64::MAX
        }
    }

    fn polar(scale: u64, turn: u64, turns: u64) -> (r: Option<C>) {
        if scale != 1 || turns == 0 {
            return None;
        }
        let four: u128 = 4 * (turn as u128);
        if four % (turns as u128) != 0 {
            return None;
        }
        let quarter: u128 = (four / (turns as u128)) % 4;
        if quarter == 0 {
            Some(C { a: 1, b: 0 })
        } else if quarter == 1 {
            Some(C { a: 0, b: 1 })
        } else if quarter == 2 {
            Some(C { a: -1, b: 0 })
        } else {
            Some(C { a: 0, b: -1 })
        }
    }
}

proof fn lemma_c_plus_associates(x: C, y: C, z: C)
    ensures
        x.spec_plus(y).spec_plus(z) == x.spec_plus(y.spec_plus(z)),
{
    let m = modulus_of_parts();
    lemma_wrap_carry(x.a + y.a);
    lemma_wrap_carry(x.b + y.b);
    lemma_wrap_carry(y.a + z.a);
    lemma_wrap_carry(y.b + z.b);
    lemma_wrap_congruent(wrap(x.a + y.a) + z.a, x.a + y.a + z.a, -carry(x.a + y.a));
    lemma_wrap_congruent(wrap(x.b + y.b) + z.b, x.b + y.b + z.b, -carry(x.b + y.b));
    lemma_wrap_congruent(x.a + wrap(y.a + z.a), x.a + y.a + z.a, -carry(y.a + z.a));
    lemma_wrap_congruent(x.b + wrap(y.b + z.b), x.b + y.b + z.b, -carry(y.b + z.b));
}

proof fn lemma_c_minus_then_plus(x: C, y: C)
    ensures
        x.spec_minus(y).spec_plus(y) == x,
{
    lemma_wrap_carry(x.a - y.a);
    lemma_wrap_carry(x.b - y.b);
    lemma_wrap_congruent(wrap(x.a - y.a) + y.a, x.a as int, -carry(x.a - y.a));
    lemma_wrap_congruent(wrap(x.b - y.b) + y.b, x.b as int, -carry(x.b - y.b));
    lemma_wrap_small(x.a);
    lemma_wrap_small(x.b);
}

proof fn lemma_c_times_commutes(x: C, y: C)
    ensures
        x.spec_times(y) == y.spec_times(x),
{
    assert(x.a * y.a - x.b * y.b == y.a * x.a - y.b * x.b) by (nonlinear_arith);
    assert(x.a * y.b + x.b * y.a == y.a * x.b + y.b * x.a) by (nonlinear_arith);
}

/// Wrapping a factor first does not change the wrapped product.
proof fn lemma_wrap_factor(p: int, e: int)
    ensures
        wrap(p) * e == p * e - (carry(p) * e) * modulus_of_parts(),
{
    let m = modulus_of_parts();
    lemma_wrap_carry(p);
    let k = carry(p);
    let w = wrap(p) as int;
    assert(w * e == p * e - (k * e) * m) by (nonlinear_arith)
        requires
            w == p - k * m,
    ;
}

proof fn lemma_wrap_diff_products(p: int, q: int, e: int, f: int)
    ensures
        wrap(wrap(p) * e - wrap(q) * f) == wrap(p * e - q * f),
{
    lemma_wrap_factor(p, e);
    lemma_wrap_factor(q, f);
    lemma_wrap_congruent(
        wrap(p) * e - wrap(q) * f,
        p * e - q * f,
        carry(q) * f - carry(p) * e,
    );
}

proof fn lemma_wrap_sum_products(p: int, q: int, e: int, f: int)
    ensures
        wrap(wrap(p) * e + wrap(q) * f) == wrap(p * e + q * f),
{
    lemma_wrap_factor(p, e);
    lemma_wrap_factor(q, f);
    lemma_wrap_congruent(
        wrap(p) * e + wrap(q) * f,
        p * e + q * f,
        -(carry(q) * f) - carry(p) * e,
    );
}

proof fn lemma_wrap_sum(p: int, q: int)
    ensures
        wrap(wrap(p) + wrap(q)) == wrap(p + q),
{
    lemma_wrap_carry(p);
    lemma_wrap_carry(q);
    lemma_wrap_congruent(wrap(p) + wrap(q), p + q, -carry(p) - carry(q));
}

/// `(u v) w = u (v w)` for the product of three.
proof fn lemma_triple(u: int, v: int, w: int)
    ensures
        (u * v) * w == u * (v * w),
        (u * v) * w == (v * w) * u,
{
    vstd::arithmetic::mul::lemma_mul_is_associative(u, v, w);
    vstd::arithmetic::mul::lemma_mul_is_commutative(u, v * w);
}

proof fn lemma_product_of_three(a: int, b: int, c: int, d: int, e: int, f: int)
    ensures
        (a * c - b * d) * e - (a * d + b * c) * f == (c * e - d * f) * a - (c * f + d * e) * b,
        (a * c - b * d) * f + (a * d + b * c) * e == (c * f + d * e) * a + (c * e - d * f) * b,
{
    vstd::arithmetic::mul::lemma_mul_is_distributive_sub_other_way(e, a * c, b * d);
    vstd::arithmetic::mul::lemma_mul_is_distributive_add_other_way(f, a * d, b * c);
    vstd::arithmetic::mul::lemma_mul_is_distributive_sub_other_way(a, c * e, d * f);
    vstd::arithmetic::mul::lemma_mul_is_distributive_add_other_way(b, c * f, d * e);
    vstd::arithmetic::mul::lemma_mul_is_distributive_sub_other_way(f, a * c, b * d);
    vstd::arithmetic::mul::lemma_mul_is_distributive_add_other_way(e, a * d, b * c);
    vstd::arithmetic::mul::lemma_mul_is_distributive_add_other_way(a, c * f, d * e);
    vstd::arithmetic::mul::lemma_mul_is_distributive_sub_other_way(b, c * e, d * f);
    lemma_triple(a, c, e);
    lemma_triple(b, d, e);
    lemma_triple(a, d, f);
    lemma_triple(b, c, f);
    lemma_triple(a, c, f);
    lemma_triple(b, d, f);
    lemma_triple(a, d, e);
    lemma_triple(b, c, e);
    vstd::arithmetic::mul::lemma_mul_is_commutative(d * f, a);
    vstd::arithmetic::mul::lemma_mul_is_commutative(c * e, a);
    vstd::arithmetic::mul::lemma_mul_is_commutative(c * f, a);
    vstd::arithmetic::mul::lemma_mul_is_commutative(d * e, a);
    vstd::arithmetic::mul::lemma_mul_is_commutative(d * f, b);
    vstd::arithmetic::mul::lemma_mul_is_commutative(c * e, b);
    vstd::arithmetic::mul::lemma_mul_is_commutative(c * f, b);
    vstd::arithmetic::mul::lemma_mul_is_commutative(d * e, b);
}

proof fn lemma_c_times_associates(x: C, y: C, z: C)
    ensures
        x.spec_times(y).spec_times(z) == x.spec_times(y.spec_times(z)),
{
    let (a, b) = (x.a as int, x.b as int);
    let (c, d) = (y.a as int, y.b as int);
    let (e, f) = (z.a as int, z.b as int);
    let yz = y.spec_times(z);
    lemma_wrap_diff_products(a * c - b * d, a * d + b * c, e, f);
    lemma_wrap_sum_products(a * c - b * d, a * d + b * c, f, e);
    lemma_wrap_diff_products(c * e - d * f, c * f + d * e, a, b);
    lemma_wrap_sum_products(c * f + d * e, c * e - d * f, a, b);
    vstd::arithmetic::mul::lemma_mul_is_commutative(a, yz.a as int);
    vstd::arithmetic::mul::lemma_mul_is_commutative(b, yz.b as int);
    vstd::arithmetic::mul::lemma_mul_is_commutative(a, yz.b as int);
    vstd::arithmetic::mul::lemma_mul_is_commutative(b, yz.a as int);
    lemma_product_of_three(a, b, c, d, e, f);
}

proof fn lemma_c_distributes(x: C, y: C, z: C)
    ensures
        x.spec_plus(y).spec_times(z) == x.spec_times(z).spec_plus(y.spec_times(z)),
{
    let (a, b) = (x.a as int, x.b as int);
    let (c, d) = (y.a as int, y.b as int);
    let (e, f) = (z.a as int, z.b as int);
    lemma_wrap_diff_products(a + c, b + d, e, f);
    lemma_wrap_sum_products(a + c, b + d, f, e);
    lemma_wrap_sum(a * e - b * f, c * e - d * f);
    lemma_wrap_sum(a * f + b * e, c * f + d * e);
    vstd::arithmetic::mul::lemma_mul_is_distributive_add_other_way(e, a, c);
    vstd::arithmetic::mul::lemma_mul_is_distributive_add_other_way(f, b, d);
    vstd::arithmetic::mul::lemma_mul_is_distributive_add_other_way(f, a, c);
    vstd::arithmetic::mul::lemma_mul_is_distributive_add_other_way(e, b, d);
}

proof fn lemma_c_conjugate_twice(x: C)
    ensures
        x.spec_conjugate().spec_conjugate() == x,
{
    lemma_wrap_carry(-x.b);
    lemma_wrap_congruent(-wrap(-x.b), x.b as int, carry(-x.b));
    lemma_wrap_small(x.b);
}

proof fn lemma_c_conjugate_of_sum(x: C, y: C)
    ensures
        x.spec_plus(y).spec_conjugate() == x.spec_conjugate().spec_plus(y.spec_conjugate()),
{
    lemma_wrap_carry(x.b + y.b);
    lemma_wrap_congruent(-wrap(x.b + y.b), -x.b - y.b, carry(x.b + y.b));
    lemma_wrap_sum(-x.b, -y.b);
}

proof fn lemma_c_conjugate_of_product(x: C, y: C)
    ensures
        x.spec_times(y).spec_conjugate() == x.spec_conjugate().spec_times(y.spec_conjugate()),
{
    let (a, b) = (x.a as int, x.b as int);
    let (c, d) = (y.a as int, y.b as int);
    let m = modulus_of_parts();
    let nb = wrap(-b) as int;
    let nd = wrap(-d) as int;
    // real part: a c - (-b)(-d), with both factors of the second product wrapped
    lemma_wrap_factor(-b, nd);
    lemma_wrap_factor(-d, -b);
    vstd::arithmetic::mul::lemma_mul_is_commutative(nd, -b);
    assert((-d) * (-b) == b * d) by (nonlinear_arith);
    lemma_wrap_congruent(
        a * c - nb * nd,
        a * c - b * d,
        carry(-b) * nd + carry(-d) * (-b),
    );
    // imaginary part
    lemma_wrap_carry(a * d + b * c);
    lemma_wrap_congruent(-wrap(a * d + b * c), -(a * d + b * c), carry(a * d + b * c));
    lemma_wrap_factor(-d, a);
    lemma_wrap_factor(-b, c);
    vstd::arithmetic::mul::lemma_mul_is_commutative(a, nd);
    assert((-d) * a == -(a * d)) by (nonlinear_arith);
    assert((-b) * c == -(b * c)) by (nonlinear_arith);
    lemma_wrap_congruent(
        a * nd + nb * c,
        -(a * d + b * c),
        -(carry(-d) * a) - carry(-b) * c,
    );
}

proof fn lemma_c_law_plus_commutes()
    ensures
        law_plus_commutes::<C>(),
{
    reveal(law_plus_commutes);
    assert forall|a: C, b: C| #![trigger a.spec_plus(b)] a.spec_plus(b) == b.spec_plus(a) by {
        
    }
}

proof fn lemma_c_law_plus_associates()
    ensures
        law_plus_associates::<C>(),
{
    reveal(law_plus_associates);
    assert forall|a: C, b: C, c: C| #![trigger a.spec_plus(b).spec_plus(c)] a.spec_plus(b).spec_plus(c) == a.spec_plus(b.spec_plus(c)) by {
        lemma_c_plus_associates(a, b, c);
    }
}

proof fn lemma_c_law_plus_zero()
    ensures
        law_plus_zero::<C>(),
{
    reveal(law_plus_zero);
    assert forall|a: C| #![trigger a.spec_plus(C::spec_zero())] a.spec_plus(C::spec_zero()) == a by {
        lemma_wrap_small(a.a);
        lemma_wrap_small(a.b);
    }
}

proof fn lemma_c_law_minus_self()
    ensures
        law_minus_self::<C>(),
{
    reveal(law_minus_self);
    assert forall|a: C| #![trigger a.spec_minus(a)] a.spec_minus(a) == C::spec_zero() by {
        lemma_wrap_small(0);
    }
}

proof fn lemma_c_law_minus_plus()
    ensures
        law_minus_plus::<C>(),
{
    reveal(law_minus_plus);
    assert forall|a: C, b: C| #![trigger a.spec_minus(b).spec_plus(b)] a.spec_minus(b).spec_plus(b) == a by {
        lemma_c_minus_then_plus(a, b);
    }
}

proof fn lemma_c_law_times_commutes()
    ensures
        law_times_commutes::<C>(),
{
    reveal(law_times_commutes);
    assert forall|a: C, b: C| #![trigger a.spec_times(b)] a.spec_times(b) == b.spec_times(a) by {
        lemma_c_times_commutes(a, b);
    }
}

proof fn lemma_c_law_times_associates()
    ensures
        law_times_associates::<C>(),
{
    reveal(law_times_associates);
    assert forall|a: C, b: C, c: C| #![trigger a.spec_times(b).spec_times(c)] a.spec_times(b).spec_times(c) == a.spec_times(b.spec_times(c)) by {
        lemma_c_times_associates(a, b, c);
    }
}

proof fn lemma_c_law_times_one()
    ensures
        law_times_one::<C>(),
{
    reveal(law_times_one);
    assert forall|a: C| #![trigger a.spec_times(C::spec_one())] a.spec_times(C::spec_one()) == a by {
        lemma_wrap_small(a.a);
        lemma_wrap_small(a.b);
        assert(a.a * 1 - a.b * 0 == a.a);
        assert(a.a * 0 + a.b * 1 == a.b);
    }
}

proof fn lemma_c_law_times_zero()
    ensures
        law_times_zero::<C>(),
{
    reveal(law_times_zero);
    assert forall|a: C| #![trigger a.spec_times(C::spec_zero())] a.spec_times(C::spec_zero()) == C::spec_zero() by {
        lemma_wrap_small(0);
        assert(a.a * 0 - a.b * 0 == 0);
        assert(a.a * 0 + a.b * 0 == 0);
    }
}

proof fn lemma_c_law_distributes()
    ensures
        law_distributes::<C>(),
{
    reveal(law_distributes);
    assert forall|a: C, b: C, c: C| #![trigger a.spec_plus(b).spec_times(c)] a.spec_plus(b).spec_times(c) == a.spec_times(c).spec_plus(b.spec_times(c)) by {
        lemma_c_distributes(a, b, c);
    }
}

proof fn lemma_c_law_conjugate_twice()
    ensures
        law_conjugate_twice::<C>(),
{
    reveal(law_conjugate_twice);
    assert forall|a: C| #![trigger a.spec_conjugate().spec_conjugate()] a.spec_conjugate().spec_conjugate() == a by {
        lemma_c_conjugate_twice(a);
    }
}

proof fn lemma_c_law_conjugate_plus()
    ensures
        law_conjugate_plus::<C>(),
{
    reveal(law_conjugate_plus);
    assert forall|a: C, b: C| #![trigger a.spec_plus(b).spec_conjugate()] a.spec_plus(b).spec_conjugate() == a.spec_conjugate().spec_plus(b.spec_conjugate()) by {
        lemma_c_conjugate_of_sum(a, b);
    }
}

proof fn lemma_c_law_conjugate_times()
    ensures
        law_conjugate_times::<C>(),
{
    reveal(law_conjugate_times);
    assert forall|a: C, b: C| #![trigger a.spec_times(b).spec_conjugate()] a.spec_times(b).spec_conjugate() == a.spec_conjugate().spec_times(b.spec_conjugate()) by {
        lemma_c_conjugate_of_product(a, b);
    }
}

proof fn lemma_c_law_near_is_equal()
    ensures
        law_near_is_equal::<C>(),
{
    reveal(law_near_is_equal);
    assert forall|a: C, b: C| #![trigger a.spec_near(b)] a.spec_near(b) == (a == b) by {
        
    }
}

/// The complex numbers with integer parts are a commutative ring with
/// conjugation.
pub proof fn lemma_c_is_ring()
    ensures
        is_ring::<C>(),
{
    lemma_c_law_plus_commutes();
    lemma_c_law_plus_associates();
    lemma_c_law_plus_zero();
    lemma_c_law_minus_self();
    lemma_c_law_minus_plus();
    lemma_c_law_times_commutes();
    lemma_c_law_times_associates();
    lemma_c_law_times_one();
    lemma_c_law_times_zero();
    lemma_c_law_distributes();
    lemma_c_law_conjugate_twice();
    lemma_c_law_conjugate_plus();
    lemma_c_law_conjugate_times();
    lemma_c_law_near_is_equal();
    lemma_wrap_small(0);
}

impl core::ops::Add for C {
    type Output = C;

    fn add(self, other: C) -> (r: C) {
        self.plus(other)
    }
}

impl vstd::std_specs::ops::AddSpecImpl for C {
    open spec fn obeys_add_spec() -> bool {
        true
    }

    open spec fn add_req(self, other: C) -> bool {
        true
    }

    open spec fn add_spec(self, other: C) -> C {
        self.spec_plus(other)
    }
}

impl core::ops::Sub for C {
    type Output = C;

    fn sub(self, other: C) -> (r: C) {
        self.minus(other)
    }
}

impl vstd::std_specs::ops::SubSpecImpl for C {
    open spec fn obeys_sub_spec() -> bool {
        true
    }

    open spec fn sub_req(self, other: C) -> bool {
        true
    }

    open spec fn sub_spec(self, other: C) -> C {
        self.spec_minus(other)
    }
}

impl core::ops::Mul for C {
    type Output = C;

    fn mul(self, other: C) -> (r: C) {
        self.times(other)
    }
}

impl vstd::std_specs::ops::MulSpecImpl for C {
    open spec fn obeys_mul_spec() -> bool {
        true
    }

    open spec fn mul_req(self, other: C) -> bool {
        true
    }

    open spec fn mul_spec(self, other: C) -> C {
        self.spec_times(other)
    }
}

/// The quotient of two integers, rounded towards zero.
pub open spec fn quotient_towards_zero(n: int, d: int) -> int {
    if n >= 0 {
        n / d
    } else {
        -((-n) / d)
    }
}

/// Both parts lie between `-2^31` and `2^31`, so that no product of two
/// parts and no sum of two such products wraps around.
pub open spec fn is_small(x: C) -> bool {
    &&& -0x7fff_ffff <= x.a <= 0x7fff_ffff
    &&& -0x7fff_ffff <= x.b <= 0x7fff_ffff
}

/// The squared modulus `a^2 + b^2`.
pub open spec fn squared_modulus(x: C) -> int {
    x.a * x.a + x.b * x.b
}

/// The quotient `x / y`: the product of `x` and the conjugate of `y`,
/// divided part by part by the squared modulus of `y`, rounded towards zero.
pub open spec fn spec_quotient(x: C, y: C) -> C {
    C {
        a: quotient_towards_zero(x.a * y.a + x.b * y.b, squared_modulus(y)) as i64,
        b: quotient_towards_zero(x.b * y.a - x.a * y.b, squared_modulus(y)) as i64,
    }
}

/// Divides a number between `-2^63` and `2^63` by a positive one, rounding
/// towards zero.
fn divide_towards_zero(n: i64, d: i64) -> (q: i64)
    requires
        d > 0,
        n > i64::MIN,
    ensures
        q == quotient_towards_zero(n as int, d as int),
{
    if n >= 0 {
        let q: u64 = (n as u64) / (d as u64);
        q as i64
    } else {
        let q: u64 = ((-n) as u64) / (d as u64);
        -(q as i64)
    }
}

impl core::ops::Div for C {
    type Output = C;

    /// The quotient of two numbers with parts between `-2^31` and `2^31`.
    fn div(self, other: C) -> (r: C) {
        let (a, b) = (self.a, self.b);
        let (c, d) = (other.a, other.b);
        proof {
            let bound: int = 0x7fff_ffff;
            assert(-bound * bound <= a * c <= bound * bound) by (nonlinear_arith)
                requires
                    -bound <= a <= bound,
                    -bound <= c <= bound,
                    bound >= 0,
            ;
            assert(-bound * bound <= b * d <= bound * bound) by (nonlinear_arith)
                requires
                    -bound <= b <= bound,
                    -bound <= d <= bound,
                    bound >= 0,
            ;
            assert(-bound * bound <= b * c <= bound * bound) by (nonlinear_arith)
                requires
                    -bound <= b <= bound,
                    -bound <= c <= bound,
                    bound >= 0,
            ;
            assert(-bound * bound <= a * d <= bound * bound) by (nonlinear_arith)
                requires
                    -bound <= a <= bound,
                    -bound <= d <= bound,
                    bound >= 0,
            ;
            assert(0 <= c * c <= bound * bound) by (nonlinear_arith)
                requires
                    -bound <= c <= bound,
                    bound >= 0,
            ;
            assert(0 <= d * d <= bound * bound) by (nonlinear_arith)
                requires
                    -bound <= d <= bound,
                    bound >= 0,
            ;
            assert(c * c + d * d > 0) by (nonlinear_arith)
                requires
                    c != 0 || d != 0,
            ;
        }
        let den: i64 = c * c + d * d;
        let re: i64 = a * c + b * d;
        let im: i64 = b * c - a * d;
        C { a: divide_towards_zero(re, den), b: divide_towards_zero(im, den) }
    }
}

impl vstd::std_specs::ops::DivSpecImpl for C {
    open spec fn obeys_div_spec() -> bool {
        true
    }

    open spec fn div_req(self, other: C) -> bool {
        is_small(self) && is_small(other) && other != (C { a: 0, b: 0 })
    }

    open spec fn div_spec(self, other: C) -> C {
        spec_quotient(self, other)
    }
}

} // verus!
