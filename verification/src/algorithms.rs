//! Number theory for factoring: divisors, periods and factors from a period.

use crate::complex::{is_near, is_zero, Scalar};
use crate::matrix::Matrix;
use vstd::arithmetic::power2::pow2;
use vstd::prelude::*;

verus! {

/// `d` divides `n`. Zero divides only zero.
pub open spec fn divides(d: nat, n: nat) -> bool {
    if d == 0 {
        n == 0
    } else {
        n % d == 0
    }
}

/// `g` is the greatest common divisor of `a` and `b`: it divides both, and
/// every number that divides both divides `g`.
pub open spec fn is_gcd(a: nat, b: nat, g: nat) -> bool {
    &&& divides(g, a)
    &&& divides(g, b)
    &&& forall|d: nat| divides(d, a) && divides(d, b) ==> divides(d, g)
}

/// The greatest common divisor as Euclid computes it.
pub open spec fn spec_gcd(a: nat, b: nat) -> nat
    decreases b,
{
    if b == 0 {
        a
    } else {
        spec_gcd(b, a % b)
    }
}

/// The greatest common divisor of all members of `s`; zero for none.
pub open spec fn gcd_of(s: Seq<nat>) -> nat
    decreases s.len(),
{
    if s.len() == 0 {
        0
    } else {
        spec_gcd(gcd_of(s.drop_last()), s.last())
    }
}

/// The least member of `s`; zero for none.
pub open spec fn min_of(s: Seq<nat>) -> nat
    decreases s.len(),
{
    if s.len() == 0 {
        0
    } else if s.len() == 1 {
        s[0]
    } else {
        let m = min_of(s.drop_last());
        if s.last() < m {
            s.last()
        } else {
            m
        }
    }
}

/// The samples as natural numbers.
pub open spec fn samples(v: Seq<usize>) -> Seq<nat> {
    Seq::new(v.len(), |i: int| v[i] as nat)
}

/// How far each member of `s` lies above the least one.
pub open spec fn above_min(s: Seq<nat>) -> Seq<nat> {
    Seq::new(s.len(), |i: int| (s[i] - min_of(s)) as nat)
}

/// The period estimate of a set of samples: the greatest common divisor of
/// their distances to the least sample.
pub open spec fn spec_period(s: Seq<nat>) -> nat {
    gcd_of(above_min(s))
}

/// The least common multiple of the members of `s` that are not zero,
/// folded from the left, starting with the first member whatever it is.
pub open spec fn spec_lcm_vec(s: Seq<nat>) -> nat
    decreases s.len(),
{
    if s.len() == 0 {
        0
    } else if s.len() == 1 {
        s[0]
    } else if s.last() == 0 {
        spec_lcm_vec(s.drop_last())
    } else {
        spec_lcm(spec_lcm_vec(s.drop_last()), s.last())
    }
}

/// The product of two numbers divided by their greatest common divisor.
pub open spec fn spec_lcm(a: nat, b: nat) -> nat {
    a * b / spec_gcd(a, b)
}

/// The factors that a period candidate `r` of `a` modulo `n` gives, if any.
/// An odd candidate gives none, nor does one whose half power is `n - 1`;
/// otherwise the common divisor of the half power plus one and `n` is a
/// factor unless it is 1 or `n`.
pub open spec fn spec_find_factors(r: nat, a: nat, n: nat) -> Option<(nat, nat)> {
    let half = crate::util::spec_mod_power(a, r / 2, n);
    let g = spec_gcd(half + 1, n);
    if r % 2 != 0 {
        None
    } else if half == n - 1 {
        None
    } else if g == 1 || g == n {
        None
    } else {
        Some((g, n / g))
    }
}

proof fn lemma_divides_mod(d: nat, a: nat, b: nat)
    requires
        b > 0,
        divides(d, b),
    ensures
        divides(d, a) <==> divides(d, a % b),
{
    if d > 0 {
        let q = a / b;
        let r = a % b;
        vstd::arithmetic::div_mod::lemma_fundamental_div_mod(a as int, b as int);
        let k = b / d;
        vstd::arithmetic::div_mod::lemma_fundamental_div_mod(b as int, d as int);
        assert(b == d * k);
        assert(a == d * (k * q) + r) by (nonlinear_arith)
            requires
                a == b * q + r,
                b == d * k,
        ;
        vstd::arithmetic::div_mod::lemma_mod_multiples_vanish(
            (k * q) as int,
            r as int,
            d as int,
        );
        assert(d * (k * q) + r == (d as int) * ((k * q) as int) + (r as int));
        assert((a as int) % (d as int) == (r as int) % (d as int));
    }
}

/// Euclid's result is the greatest common divisor.
pub proof fn lemma_gcd_is_gcd(a: nat, b: nat)
    ensures
        is_gcd(a, b, spec_gcd(a, b)),
    decreases b,
{
    if b == 0 {
        assert(divides(a, a)) by {
            if a > 0 {
                vstd::arithmetic::div_mod::lemma_mod_self_0(a as int);
            }
        }
        assert(divides(a, 0)) by {
            if a > 0 {
                vstd::arithmetic::div_mod::lemma_small_mod(0, a);
            }
        }
    } else {
        lemma_gcd_is_gcd(b, a % b);
        let g = spec_gcd(a, b);
        lemma_divides_mod(g, a, b);
        assert forall|d: nat| divides(d, a) && divides(d, b) implies divides(d, g) by {
            lemma_divides_mod(d, a, b);
        }
    }
}

/// Two numbers that divide each other are equal.
proof fn lemma_divides_both_ways(x: nat, y: nat)
    requires
        divides(x, y),
        divides(y, x),
    ensures
        x == y,
{
    if x > 0 && y > 0 {
        vstd::arithmetic::div_mod::lemma_fundamental_div_mod(y as int, x as int);
        vstd::arithmetic::div_mod::lemma_fundamental_div_mod(x as int, y as int);
        let p = y / x;
        let q = x / y;
        assert(y == x * p);
        assert(x == y * q);
        assert(p >= 1 && q >= 1 && x == y) by (nonlinear_arith)
            requires
                y == x * p,
                x == y * q,
                x > 0,
                y > 0,
        ;
    }
}

/// Two numbers have one greatest common divisor only.
pub proof fn lemma_gcd_unique(a: nat, b: nat, g1: nat, g2: nat)
    requires
        is_gcd(a, b, g1),
        is_gcd(a, b, g2),
    ensures
        g1 == g2,
{
    lemma_divides_both_ways(g1, g2);
}

/// A divisor of a positive number is positive and not above it, and the
/// number is the divisor times the quotient.
proof fn lemma_divisor_bounds(d: nat, n: nat)
    requires
        n > 0,
        divides(d, n),
    ensures
        0 < d <= n,
        d * (n / d) == n,
{
    vstd::arithmetic::div_mod::lemma_fundamental_div_mod(n as int, d as int);
    let q = n / d;
    assert(n == d * q);
    assert(q >= 1 && d <= n) by (nonlinear_arith)
        requires
            n == d * q,
            n > 0,
            d > 0,
    ;
}

/// The greatest common divisor is not above either number, unless that
/// number is zero.
proof fn lemma_gcd_bounds(a: nat, b: nat)
    ensures
        a > 0 ==> 0 < spec_gcd(a, b) <= a,
        b > 0 ==> 0 < spec_gcd(a, b) <= b,
        a == 0 && b == 0 ==> spec_gcd(a, b) == 0,
{
    lemma_gcd_is_gcd(a, b);
    if a > 0 {
        lemma_divisor_bounds(spec_gcd(a, b), a);
    }
    if b > 0 {
        lemma_divisor_bounds(spec_gcd(a, b), b);
    }
}

/// The greatest common divisor of a sequence divides every member, and every
/// number that divides all members divides it.
pub proof fn lemma_gcd_of_is_gcd(s: Seq<nat>)
    ensures
        forall|i: int| 0 <= i < s.len() ==> divides(gcd_of(s), #[trigger] s[i]),
        forall|d: nat|
            (forall|i: int| 0 <= i < s.len() ==> divides(d, #[trigger] s[i])) ==> divides(
                d,
                gcd_of(s),
            ),
    decreases s.len(),
{
    if s.len() == 0 {
        assert forall|d: nat| divides(d, 0) by {
            if d > 0 {
                vstd::arithmetic::div_mod::lemma_small_mod(0, d);
            }
        }
    } else {
        let front = s.drop_last();
        let g0 = gcd_of(front);
        let g = gcd_of(s);
        lemma_gcd_of_is_gcd(front);
        lemma_gcd_is_gcd(g0, s.last());
        assert forall|i: int| 0 <= i < s.len() implies divides(g, #[trigger] s[i]) by {
            if i < s.len() - 1 {
                assert(front[i] == s[i]);
                lemma_divides_transitive(g, g0, s[i]);
            }
        }
        assert forall|d: nat|
            (forall|i: int| 0 <= i < s.len() ==> divides(d, #[trigger] s[i])) implies divides(
            d,
            g,
        ) by {
            assert forall|i: int| 0 <= i < front.len() implies divides(d, #[trigger] front[i]) by {
                assert(front[i] == s[i]);
            }
            assert(divides(d, s[s.len() - 1]));
        }
    }
}

proof fn lemma_divides_transitive(x: nat, y: nat, z: nat)
    requires
        divides(x, y),
        divides(y, z),
    ensures
        divides(x, z),
{
    if x > 0 && y > 0 {
        vstd::arithmetic::div_mod::lemma_fundamental_div_mod(y as int, x as int);
        vstd::arithmetic::div_mod::lemma_fundamental_div_mod(z as int, y as int);
        let p = y / x;
        let q = z / y;
        assert(z == x * (p * q)) by (nonlinear_arith)
            requires
                y == x * p,
                z == y * q,
        ;
        vstd::arithmetic::div_mod::lemma_mod_multiples_basic((p * q) as int, x as int);
        assert(x * (p * q) == ((p * q) as int) * (x as int)) by (nonlinear_arith);
    }
}

/// The factors that a period candidate gives are proper factors of `n`.
pub proof fn lemma_factors_multiply(r: nat, a: nat, n: nat)
    requires
        n > 0,
    ensures
        match spec_find_factors(r, a, n) {
            Some((p, q)) => p * q == n && 1 < p < n && 1 < q < n,
            None => true,
        },
{
    let half = crate::util::spec_mod_power(a, r / 2, n);
    let g = spec_gcd(half + 1, n);
    lemma_gcd_is_gcd(half + 1, n);
    lemma_divisor_bounds(g, n);
    if g != 1 && g != n {
        let q = n / g;
        assert(1 < q < n) by (nonlinear_arith)
            requires
                g * q == n,
                1 < g < n,
        ;
    }
}

/// Draws a base for the period search: a random number from 2 up to, but
/// not including, `n`.
pub fn pick_a(n: u32) -> (a: u32)
    requires
        n > 2,
    ensures
        2 <= a < n,
{
    crate::chance::random_in_range(2, n as u128) as u32
}

/// The greatest common divisor of two numbers; `gcd(0, 0)` is 0.
pub fn gcd(a: u64, b: u64) -> (g: u64)
    ensures
        g == spec_gcd(a as nat, b as nat),
        is_gcd(a as nat, b as nat, g as nat),
{
    let mut x: u64 = a;
    let mut y: u64 = b;
    while y != 0
        invariant
            spec_gcd(x as nat, y as nat) == spec_gcd(a as nat, b as nat),
        decreases y,
    {
        let r: u64 = x % y;
        x = y;
        y = r;
    }
    proof {
        lemma_gcd_is_gcd(a as nat, b as nat);
    }
    x
}

/// The product of two numbers divided by their greatest common divisor.
pub fn lcm(a: u64, b: u64) -> (m: u64)
    requires
        a != 0 || b != 0,
        a * b <= u64::MAX,
    ensures
        m == spec_lcm(a as nat, b as nat),
{
    proof {
        lemma_gcd_bounds(a as nat, b as nat);
    }
    a * b / gcd(a, b)
}

/// Every product that folding the least common multiple over `s` forms
/// fits the machine word.
pub open spec fn lcm_vec_fits(s: Seq<nat>) -> bool {
    forall|k: int|
        1 <= k < s.len() ==> spec_lcm_vec(#[trigger] s.take(k)) * s[k] <= u64::MAX
}

/// The numbers as natural numbers.
pub open spec fn naturals(v: Seq<u64>) -> Seq<nat> {
    Seq::new(v.len(), |i: int| v[i] as nat)
}

/// The least common multiple of the first number and all later numbers
/// that are not zero.
pub fn lcm_vec(nums: Vec<u64>) -> (m: u64)
    requires
        nums.len() > 0,
        lcm_vec_fits(naturals(nums@)),
    ensures
        m == spec_lcm_vec(naturals(nums@)),
{
    let ghost s = naturals(nums@);
    let mut res: u64 = nums[0];
    let mut i: usize = 1;
    proof {
        assert(s.take(1).len() == 1);
    }
    while i < nums.len()
        invariant
            1 <= i <= nums.len(),
            s == naturals(nums@),
            lcm_vec_fits(s),
            res == spec_lcm_vec(s.take(i as int)),
        decreases nums.len() - i,
    {
        proof {
            assert(s.take(i + 1).drop_last() =~= s.take(i as int));
            assert(s.take(i + 1).last() == s[i as int]);
            assert(s[i as int] == nums@[i as int]);
        }
        if nums[i] != 0 {
            res = lcm(res, nums[i]);
        }
        i = i + 1;
    }
    proof {
        assert(s.take(s.len() as int) =~= s);
    }
    res
}

/// The least of the samples; zero for none.
fn least(nbmrs: &Vec<usize>) -> (m: usize)
    ensures
        m == min_of(samples(nbmrs@)),
        forall|i: int| 0 <= i < nbmrs.len() ==> m <= nbmrs@[i],
{
    let ghost s = samples(nbmrs@);
    if nbmrs.len() == 0 {
        return 0;
    }
    let mut m: usize = nbmrs[0];
    let mut i: usize = 1;
    proof {
        assert(s.take(1).len() == 1);
        assert(s.take(1)[0] == nbmrs@[0]);
    }
    while i < nbmrs.len()
        invariant
            1 <= i <= nbmrs.len(),
            s == samples(nbmrs@),
            m == min_of(s.take(i as int)),
            forall|j: int| 0 <= j < i ==> m <= nbmrs@[j],
        decreases nbmrs.len() - i,
    {
        proof {
            assert(s.take(i + 1).drop_last() =~= s.take(i as int));
            assert(s.take(i + 1).last() == s[i as int]);
            assert(s[i as int] == nbmrs@[i as int]);
        }
        if nbmrs[i] < m {
            m = nbmrs[i];
        }
        i = i + 1;
    }
    proof {
        assert(s.take(s.len() as int) =~= s);
    }
    m
}

/// The period estimate of a set of samples: the greatest common divisor of
/// the distances of all samples to the least one. It is zero where there is
/// no sample or all samples are equal.
pub fn period_in_ints(nbmrs: Vec<usize>) -> (r: usize)
    ensures
        r == spec_period(samples(nbmrs@)),
{
    let ghost s = samples(nbmrs@);
    let ghost d = above_min(s);
    let min = least(&nbmrs);
    let mut attempt: u64 = 0;
    let mut i: usize = 0;
    proof {
        assert(d.take(0).len() == 0);
    }
    while i < nbmrs.len()
        invariant
            i <= nbmrs.len(),
            s == samples(nbmrs@),
            d == above_min(s),
            min == min_of(s),
            forall|j: int| 0 <= j < nbmrs.len() ==> min <= nbmrs@[j],
            attempt == gcd_of(d.take(i as int)),
            attempt <= usize::MAX,
        decreases nbmrs.len() - i,
    {
        proof {
            assert(d.take(i + 1).drop_last() =~= d.take(i as int));
            assert(d.take(i + 1).last() == d[i as int]);
            assert(s[i as int] == nbmrs@[i as int]);
            lemma_gcd_bounds(attempt as nat, d[i as int]);
        }
        let diff: usize = nbmrs[i] - min;
        attempt = gcd(attempt, diff as u64);
        i = i + 1;
    }
    proof {
        assert(d.take(d.len() as int) =~= d);
    }
    attempt as usize
}

/// The number that the characters `from..to` of a binary string spell.
fn number_at(chars: &Vec<char>, from: usize, to: usize) -> (m: usize)
    requires
        from <= to <= chars@.len(),
    ensures
        m as int == crate::util::bits_value(chars@.subrange(from as int, to as int)) % ((usize::MAX
            + 1) as nat),
{
    let mut part = String::new();
    let mut i: usize = from;
    while i < to
        invariant
            from <= i <= to <= chars.len(),
            part@ == chars@.subrange(from as int, i as int),
        decreases to - i,
    {
        crate::text::push_char(&mut part, chars[i]);
        proof {
            assert(chars@.subrange(from as int, i + 1) =~= chars@.subrange(
                from as int,
                i as int,
            ).push(chars@[i as int]));
        }
        i = i + 1;
    }
    crate::util::binary_string_to_int(part)
}

/// The number that the first `2 * n_bits` characters of a binary string spell.
pub fn get_m(binary_string: String, n_bits: usize) -> (m: usize)
    requires
        2 * n_bits <= binary_string@.len(),
    ensures
        m as int == crate::util::bits_value(binary_string@.take(2 * n_bits)) % ((usize::MAX
            + 1) as nat),
{
    let chars = crate::text::chars_of(binary_string.as_str());
    assert(2 * n_bits <= chars.len());
    proof {
        assert(binary_string@.take(2 * n_bits) =~= binary_string@.subrange(0, 2 * n_bits));
    }
    number_at(&chars, 0, 2 * n_bits)
}

/// The number that the digits `from..to` of the `3 * n_bits` low binary
/// digits of `index` spell, most significant digit first.
pub open spec fn register_value(index: nat, n_bits: nat, from: nat, to: nat) -> nat {
    crate::util::bits_value(
        crate::util::binary_digits(index, 3 * n_bits).subrange(from as int, to as int),
    ) % ((usize::MAX + 1) as nat)
}

/// The entries of a distribution as pairs of a natural number and an amplitude.
pub open spec fn distribution_view<T>(d: Seq<(usize, T)>) -> Seq<(nat, T)> {
    Seq::new(d.len(), |i: int| (d[i].0 as nat, d[i].1))
}

/// The amplitudes of the state `v` at the indices from 1 up to `k` that do
/// not count as zero, in the order of the indices, each with the number that
/// the digits `from..to` of its index spell.
pub open spec fn spec_distribution<T: Scalar>(
    v: Seq<Seq<T>>,
    n_bits: nat,
    from: nat,
    to: nat,
    k: nat,
) -> Seq<(nat, T)>
    decreases k,
{
    if k <= 1 {
        Seq::empty()
    } else {
        let before = spec_distribution(v, n_bits, from, to, (k - 1) as nat);
        let amplitude = v[k - 1][0];
        if amplitude.spec_near(T::spec_zero()) {
            before
        } else {
            before.push((register_value((k - 1) as nat, n_bits, from, to), amplitude))
        }
    }
}

/// `r` is a result of the comparison of `a` with a result of zero.
pub open spec fn is_zero_test<T: Scalar>(a: T, r: bool) -> bool {
    exists|zero: T| is_zero(zero) && #[trigger] is_near(a, zero, r)
}

/// `d` is `before`, with `entry` behind it unless it was left out.
pub open spec fn with_entry<T>(
    before: Seq<(nat, T)>,
    entry: (nat, T),
    left_out: bool,
    d: Seq<(nat, T)>,
) -> bool {
    d == if left_out {
        before
    } else {
        before.push(entry)
    }
}

/// `d` holds the amplitudes of the state `v` at the indices from 1 up to
/// `k`, in the order of the indices, each with the number that the digits
/// `from..to` of its index spell, but for those whose comparison with zero
/// gave that they count as zero.
pub open spec fn is_distribution<T: Scalar>(
    v: Seq<Seq<T>>,
    n_bits: nat,
    from: nat,
    to: nat,
    k: nat,
    d: Seq<(nat, T)>,
) -> bool
    decreases k,
{
    if k <= 1 {
        d.len() == 0
    } else {
        exists|left_out: bool, before: Seq<(nat, T)>|
            is_distribution(v, n_bits, from, to, (k - 1) as nat, before) && is_zero_test(
                v[k - 1][0],
                left_out,
            ) && #[trigger] with_entry(
                before,
                (register_value((k - 1) as nat, n_bits, from, to), v[k - 1][0]),
                left_out,
                d,
            )
    }
}

/// For an exact scalar type the distribution of a state is determined.
pub proof fn lemma_distribution_exact<T: Scalar>(
    v: Seq<Seq<T>>,
    n_bits: nat,
    from: nat,
    to: nat,
    k: nat,
    d: Seq<(nat, T)>,
)
    requires
        T::exact(),
        is_distribution(v, n_bits, from, to, k, d),
    ensures
        d == spec_distribution(v, n_bits, from, to, k),
    decreases k,
{
    if k > 1 {
        let (left_out, before) = choose|left_out: bool, before: Seq<(nat, T)>|
            is_distribution(v, n_bits, from, to, (k - 1) as nat, before) && is_zero_test(
                v[k - 1][0],
                left_out,
            ) && #[trigger] with_entry(
                before,
                (register_value((k - 1) as nat, n_bits, from, to), v[k - 1][0]),
                left_out,
                d,
            );
        lemma_distribution_exact(v, n_bits, from, to, (k - 1) as nat, before);
    } else {
        assert(d =~= Seq::empty());
    }
}

/// The amplitudes of a state of `3 * n_bits` qubits that do not count as
/// zero, from index 1 on, each with the number that the digits `from..to`
/// of its index spell.
fn distribution<T: Scalar>(m: &Matrix<T>, n_bits: usize, from: usize, to: usize) -> (r: Vec<
    (usize, T),
>)
    requires
        m.wf(),
        m.spec_cols() == 1,
        3 * n_bits <= usize::BITS,
        from <= to <= 3 * n_bits,
    ensures
        is_distribution(
            m@,
            n_bits as nat,
            from as nat,
            to as nat,
            m.spec_rows(),
            distribution_view(r@),
        ),
        T::exact() ==> distribution_view(r@) == spec_distribution(
            m@,
            n_bits as nat,
            from as nat,
            to as nat,
            m.spec_rows(),
        ),
{
    let (count, _) = m.size();
    let mut found: Vec<(usize, T)> = Vec::new();
    let mut i: usize = 1;
    while i < count
        invariant
            1 <= i <= count,
            m.wf(),
            m.spec_cols() == 1,
            count == m.spec_rows(),
            3 * n_bits <= usize::BITS,
            from <= to <= 3 * n_bits,
            is_distribution(
                m@,
                n_bits as nat,
                from as nat,
                to as nat,
                i as nat,
                distribution_view(found@),
            ),
        decreases count - i,
    {
        let ghost before = distribution_view(found@);
        let amplitude = m.at(i, 0);
        let zero = T::zero();
        let left_out = amplitude.near(zero);
        if !left_out {
            let digits = crate::util::index_to_binary_string(i, 3 * n_bits);
            let chars = crate::text::chars_of(digits.as_str());
            let value = number_at(&chars, from, to);
            found.push((value, amplitude));
        }
        proof {
            let entry = (
                register_value(i as nat, n_bits as nat, from as nat, to as nat),
                m@[i as int][0],
            );
            assert(is_near(amplitude, zero, left_out));
            assert(is_zero_test(m@[i as int][0], left_out));
            if !left_out {
                assert(distribution_view(found@) =~= before.push(entry));
            }
            assert(with_entry(before, entry, left_out, distribution_view(found@)));
            assert(is_distribution(m@, n_bits as nat, from as nat, to as nat, i as nat, before));
            assert(((i + 1) as nat - 1) as nat == i as nat);
            assert(is_distribution(
                m@,
                n_bits as nat,
                from as nat,
                to as nat,
                (i + 1) as nat,
                distribution_view(found@),
            ));
        }
        i = i + 1;
    }
    proof {
        if T::exact() {
            lemma_distribution_exact(
                m@,
                n_bits as nat,
                from as nat,
                to as nat,
                m.spec_rows(),
                distribution_view(found@),
            );
        }
    }
    found
}

/// The amplitudes of a state of `3 * n_bits` qubits that do not count as
/// zero, from index 1 on, each with the exponent that its index holds in
/// its first `2 * n_bits` digits.
pub fn get_m_probability_dist<T: Scalar>(m: Matrix<T>, n_bits: usize) -> (r: Vec<(usize, T)>)
    requires
        m.wf(),
        m.spec_cols() == 1,
        3 * n_bits <= usize::BITS,
    ensures
        is_distribution(m@, n_bits as nat, 0, 2 * n_bits as nat, m.spec_rows(), distribution_view(r@)),
        T::exact() ==> distribution_view(r@) == spec_distribution(
            m@,
            n_bits as nat,
            0,
            2 * n_bits as nat,
            m.spec_rows(),
        ),
{
    distribution(&m, n_bits, 0, 2 * n_bits)
}

/// The amplitudes of a state of `3 * n_bits` qubits that do not count as
/// zero, from index 1 on, each with the value that its index holds in its
/// last `n_bits` digits.
pub fn get_n_probability_dist<T: Scalar>(m: Matrix<T>, n_bits: usize) -> (r: Vec<(usize, T)>)
    requires
        m.wf(),
        m.spec_cols() == 1,
        3 * n_bits <= usize::BITS,
    ensures
        is_distribution(
            m@,
            n_bits as nat,
            2 * n_bits as nat,
            3 * n_bits as nat,
            m.spec_rows(),
            distribution_view(r@),
        ),
        T::exact() ==> distribution_view(r@) == spec_distribution(
            m@,
            n_bits as nat,
            2 * n_bits as nat,
            3 * n_bits as nat,
            m.spec_rows(),
        ),
{
    distribution(&m, n_bits, 2 * n_bits, 3 * n_bits)
}

/// The factors of `n` that a period candidate `r` of `a` gives, if any.
///
/// An odd candidate is rejected, and so is one with `a^(r/2) = n - 1`
/// modulo `n`. Otherwise the greatest common divisor `g` of `a^(r/2) + 1`
/// and `n` gives the factors `(g, n / g)`, unless it is 1 or `n`.
pub fn find_factors(r: u32, a: u32, n: u32) -> (f: Option<(u32, u32)>)
    requires
        n > 0,
    ensures
        match f {
            Some((p, q)) => spec_find_factors(r as nat, a as nat, n as nat) == Some(
                (p as nat, q as nat),
            ),
            None => spec_find_factors(r as nat, a as nat, n as nat).is_none(),
        },
        f matches Some((p, q)) ==> p * q == n && 1 < p < n && 1 < q < n,
{
    proof {
        lemma_factors_multiply(r as nat, a as nat, n as nat);
    }
    if r % 2 != 0 {
        return None;
    }
    let half = crate::util::mod_power(a, r / 2, n);
    if half == n - 1 {
        return None;
    }
    proof {
        lemma_gcd_bounds((half + 1) as nat, n as nat);
    }
    let g = gcd(half as u64 + 1, n as u64);
    if g == 1 || g == n as u64 {
        return None;
    }
    let p: u32 = g as u32;
    Some((p, n / p))
}

/// `count` copies of `s` in a row.
pub open spec fn repeated(s: Seq<char>, count: nat) -> Seq<char>
    decreases count,
{
    if count == 0 {
        Seq::empty()
    } else {
        repeated(s, (count - 1) as nat) + s
    }
}

/// The program that samples the period of `a^x mod n`.
///
/// With `k` the number of binary digits of `n`, the register has `2 k`
/// qubits for the exponent and `k` for the value. The exponent is put into
/// the even superposition, the modular exponentiation is applied, and the
/// value register is measured. Then the whole register is measured seven
/// times.
pub open spec fn spec_period_program(a: nat, n: nat) -> Seq<char> {
    let k = crate::util::bit_size(n);
    "INITIALIZE R "@ + crate::text::decimal_text(3 * k) + "\n"@ + "U TENSOR G_H G_H\n"@ + repeated(
        "U TENSOR U G_H\n"@,
        (2 * k - 2) as nat,
    ) + "U TENSOR U G_I_"@ + crate::text::decimal_text(pow2(k)) + "\n"@
        + "APPLY U R\n"@ + "APPLY G_Uf_"@ + crate::text::decimal_text(a) + "_"@
        + crate::text::decimal_text(n) + " R\n"@ + "SELECT S R "@ + crate::text::decimal_text(2 * k)
        + " "@ + crate::text::decimal_text(3 * k) + "\n"@ + "MEASURE S RES\n"@
        + "MEASURE R RES1\n"@ + "MEASURE R RES2\n"@ + "MEASURE R RES3\n"@ + "MEASURE R RES4\n"@
        + "MEASURE R RES5\n"@ + "MEASURE R RES6\n"@ + "MEASURE R RES7\n"@
}

/// The names under which the samples of the period are recorded.
pub open spec fn sample_names() -> Seq<Seq<char>> {
    seq!["RES1"@, "RES2"@, "RES3"@, "RES4"@, "RES5"@, "RES6"@, "RES7"@]
}

/// The exponent that an outcome holds in its first `2 * n_bits` digits.
pub open spec fn exponent_of(bits: Seq<char>, n_bits: nat) -> nat {
    (crate::util::bits_value(bits.take(2 * n_bits as int)) % ((usize::MAX + 1) as nat)) as nat
}

/// The sample that a measurement log holds under `name`, if it holds one
/// with enough digits.
pub open spec fn spec_sample<M>(log: Map<Seq<char>, (M, Seq<char>)>, name: Seq<char>, n_bits: nat)
    -> Option<nat> {
    if log.contains_key(name) && log[name].1.len() >= 2 * n_bits {
        Some(exponent_of(log[name].1, n_bits))
    } else {
        None
    }
}

/// The period estimate from the seven samples of a measurement log, if the
/// log holds them all.
pub open spec fn spec_period_of_log<M>(log: Map<Seq<char>, (M, Seq<char>)>, n_bits: nat) -> Option<
    nat,
> {
    if forall|i: int| 0 <= i < 7 ==> (#[trigger] spec_sample(log, sample_names()[i], n_bits)).is_some() {
        Some(spec_period(Seq::new(7, |i: int| spec_sample(log, sample_names()[i], n_bits).unwrap())))
    } else {
        None
    }
}

/// Writes the program that samples the period of `a^x mod n`.
pub fn period_program(a: u32, n: u32) -> (s: String)
    requires
        n >= 1,
    ensures
        s@ == spec_period_program(a as nat, n as nat),
{
    let k = crate::util::min_bit_size(n) as u64;
    proof {
        crate::util::lemma_bit_size(n as nat);
        vstd::arithmetic::power2::lemma2_to64();
        assert(k >= 1);
    }
    let mut s = String::from_str("INITIALIZE R ");
    s.append(crate::text::to_decimal(3 * k).as_str());
    s.append("\n");
    s.append("U TENSOR G_H G_H\n");
    let mut i: u64 = 0;
    let ghost head = s@;
    proof {
        assert(head + repeated("U TENSOR U G_H\n"@, 0) =~= head);
    }
    while i < 2 * k - 2
        invariant
            i <= 2 * k - 2,
            1 <= k <= 32,
            s@ == head + repeated("U TENSOR U G_H\n"@, i as nat),
        decreases 2 * k - 2 - i,
    {
        s.append("U TENSOR U G_H\n");
        proof {
            let line = "U TENSOR U G_H\n"@;
            assert(head + repeated(line, i as nat) + line =~= head + repeated(
                line,
                (i + 1) as nat,
            ));
        }
        i = i + 1;
    }
    let mut size: u64 = 1;
    let mut j: u64 = 0;
    while j < k
        invariant
            j <= k <= 32,
            size == pow2(j as nat),
            size <= 0x1_0000_0000,
        decreases k - j,
    {
        proof {
            vstd::arithmetic::power2::lemma_pow2_unfold((j + 1) as nat);
            vstd::arithmetic::power2::lemma2_to64();
            if j + 1 < 32 {
                vstd::arithmetic::power2::lemma_pow2_strictly_increases((j + 1) as nat, 32);
            }
        }
        size = size * 2;
        j = j + 1;
    }
    s.append("U TENSOR U G_I_");
    s.append(crate::text::to_decimal(size).as_str());
    s.append("\n");
    s.append("APPLY U R\n");
    s.append("APPLY G_Uf_");
    s.append(crate::text::to_decimal(a as u64).as_str());
    s.append("_");
    s.append(crate::text::to_decimal(n as u64).as_str());
    s.append(" R\n");
    s.append("SELECT S R ");
    s.append(crate::text::to_decimal(2 * k).as_str());
    s.append(" ");
    s.append(crate::text::to_decimal(3 * k).as_str());
    s.append("\n");
    s.append("MEASURE S RES\n");
    s.append("MEASURE R RES1\n");
    s.append("MEASURE R RES2\n");
    s.append("MEASURE R RES3\n");
    s.append("MEASURE R RES4\n");
    s.append("MEASURE R RES5\n");
    s.append("MEASURE R RES6\n");
    s.append("MEASURE R RES7\n");
    s
}

/// The sample that a measurement log holds under `name`.
fn sample_of<T: crate::complex::Scalar>(
    log: &crate::table::Table<(crate::matrix::Matrix<T>, String)>,
    name: &str,
    n_bits: usize,
) -> (r: Option<usize>)
    requires
        log.wf(),
        2 * n_bits <= usize::MAX,
    ensures
        match r {
            Some(m) => spec_sample(crate::executor::log_view(log@), name@, n_bits as nat) == Some(
                m as nat,
            ),
            None => spec_sample(crate::executor::log_view(log@), name@, n_bits as nat).is_none(),
        },
{
    match log.get(name) {
        Some(entry) => {
            if entry.1.as_str().unicode_len() < 2 * n_bits {
                return None;
            }
            Some(get_m(entry.1.clone(), n_bits))
        },
        None => None,
    }
}

/// The period estimate from the seven samples `RES1` to `RES7` of a
/// measurement log, or `None` if one of them is missing or too short.
pub fn period_of_log<T: crate::complex::Scalar>(
    log: &crate::table::Table<(crate::matrix::Matrix<T>, String)>,
    n_bits: usize,
) -> (r: Option<usize>)
    requires
        log.wf(),
        2 * n_bits <= usize::MAX,
    ensures
        match r {
            Some(p) => spec_period_of_log(crate::executor::log_view(log@), n_bits as nat) == Some(
                p as nat,
            ),
            None => spec_period_of_log(crate::executor::log_view(log@), n_bits as nat).is_none(),
        },
{
    let ghost view = crate::executor::log_view(log@);
    let ghost names = sample_names();
    let mut found: Vec<usize> = Vec::new();
    let mut i: usize = 0;
    while i < 7
        invariant
            i <= 7,
            log.wf(),
            2 * n_bits <= usize::MAX,
            view == crate::executor::log_view(log@),
            names == sample_names(),
            found@.len() == i,
            forall|j: int|
                0 <= j < i ==> (#[trigger] spec_sample(view, names[j], n_bits as nat)) == Some(
                    found@[j] as nat,
                ),
        decreases 7 - i,
    {
        let name = if i == 0 {
            "RES1"
        } else if i == 1 {
            "RES2"
        } else if i == 2 {
            "RES3"
        } else if i == 3 {
            "RES4"
        } else if i == 4 {
            "RES5"
        } else if i == 5 {
            "RES6"
        } else {
            "RES7"
        };
        assert(name@ == names[i as int]);
        match sample_of(log, name, n_bits) {
            Some(m) => {
                found.push(m);
            },
            None => {
                return None;
            },
        }
        i = i + 1;
    }
    proof {
        assert(samples(found@) =~= Seq::new(
            7,
            |i: int| spec_sample(view, names[i], n_bits as nat).unwrap(),
        ));
    }
    Some(period_in_ints(found))
}

/// What the search for a period gives for a run of its program.
pub open spec fn spec_period_result<M>(
    log: Result<Map<Seq<char>, (M, Seq<char>)>, crate::quantum_assembler::SimErrorView>,
    n_bits: nat,
) -> Option<nat> {
    match log {
        Ok(found) => match spec_period_of_log(found, n_bits) {
            Some(p) => if p <= u32::MAX {
                Some(p)
            } else {
                None
            },
            None => None,
        },
        Err(e) => None,
    }
}

/// What the search for a period of a number modulo `n` gives for a run of
/// its program: the estimate as a machine number.
pub open spec fn period_found<M>(
    log: Result<Map<Seq<char>, (M, Seq<char>)>, crate::quantum_assembler::SimErrorView>,
    n: nat,
) -> Option<u32> {
    match spec_period_result(log, crate::util::bit_size(n)) {
        Some(p) => Some(p as u32),
        None => None,
    }
}

/// `r` is an estimate of the period of `a^x mod n`: what the search gives
/// for a result of a run of the sampling program with some draws.
pub open spec fn is_period_estimate<T: crate::complex::Scalar>(a: nat, n: nat, r: Option<u32>) -> bool {
    exists|
        draws: Seq<u128>,
        log: Result<Map<Seq<char>, (Seq<Seq<T>>, Seq<char>)>, crate::quantum_assembler::SimErrorView>,
    |
        #[trigger] crate::quantum_assembler::run_gives(spec_period_program(a, n), draws, log) && r
            == period_found(log, n)
}

/// Estimates the period of `a^x mod n`: runs the sampling program and takes
/// the estimate from its seven samples. `None` if the program fails, which
/// it does where the scalar type does not hold the Hadamard gate.
pub fn find_period<T: crate::complex::Scalar>(a: u32, n: u32) -> (r: Option<u32>)
    requires
        n >= 1,
    ensures
        is_period_estimate::<T>(a as nat, n as nat, r),
        T::exact() ==> exists|draws: Seq<u128>|
            r == period_found(
                #[trigger] crate::quantum_assembler::spec_run::<T>(
                    spec_period_program(a as nat, n as nat),
                    draws,
                ),
                n as nat,
            ),
{
    let n_bits = crate::util::min_bit_size(n) as usize;
    let program = period_program(a, n);
    let log = crate::quantum_assembler::run::<T>(program);
    let ghost witness = choose|draws: Seq<u128>|
        crate::quantum_assembler::sim_result(log) == #[trigger] crate::quantum_assembler::spec_run::<
            T,
        >(spec_period_program(a as nat, n as nat), draws);
    let ghost taken = choose|draws: Seq<u128>| #[trigger]
        crate::quantum_assembler::run_gives(
            spec_period_program(a as nat, n as nat),
            draws,
            crate::quantum_assembler::sim_result(log),
        );
    let ghost outcome = crate::quantum_assembler::sim_result(log);
    assert(crate::quantum_assembler::run_gives(
        spec_period_program(a as nat, n as nat),
        taken,
        outcome,
    ));
    match log {
        Ok(found) => {
            match period_of_log(&found, n_bits) {
                Some(p) => {
                    if p > u32::MAX as usize {
                        None
                    } else {
                        Some(p as u32)
                    }
                },
                None => None,
            }
        },
        Err(_) => None,
    }
}

/// The factors of `n` that a base `a` gives at once: their greatest common
/// divisor and its cofactor, unless the two have no factor in common.
pub open spec fn spec_common_factor(a: nat, n: nat) -> Option<(nat, nat)> {
    let g = spec_gcd(a, n);
    if g != 1 {
        Some((g, n / g))
    } else {
        None
    }
}

/// What one attempt gives: the factor that the base `a` has in common with
/// `n`, or else the factors from the estimate of the period, if the search
/// gave one.
pub open spec fn spec_attempt(a: u32, period: Option<u32>, n: u32) -> Option<(nat, nat)> {
    match spec_common_factor(a as nat, n as nat) {
        Some(factors) => Some(factors),
        None => match period {
            Some(r) => spec_find_factors(r as nat, a as nat, n as nat),
            None => None,
        },
    }
}

/// An attempt that the search for factors of `n` can make: a base from 2 up
/// to `n`, and, where the base has no factor in common with `n`, an
/// estimate of the period of the base.
pub open spec fn is_attempt<T: crate::complex::Scalar>(
    n: u32,
    attempt: (u32, Option<u32>),
) -> bool {
    2 <= attempt.0 < n && (spec_common_factor(attempt.0 as nat, n as nat).is_none()
        ==> is_period_estimate::<T>(attempt.0 as nat, n as nat, attempt.1))
}

/// The factors as natural numbers.
pub open spec fn factors_view(f: Option<(u32, u32)>) -> Option<(nat, nat)> {
    match f {
        Some((p, q)) => Some((p as nat, q as nat)),
        None => None,
    }
}

/// `f` is what the search for factors of `n` gives for the attempts that
/// it made: there are at least one and at most ten attempts, every attempt
/// but the last gave nothing, the last one gave `f`, and the search gave up
/// only after ten attempts.
pub open spec fn is_search<T: crate::complex::Scalar>(
    n: u32,
    attempts: Seq<(u32, Option<u32>)>,
    f: Option<(u32, u32)>,
) -> bool {
    &&& 1 <= attempts.len() <= 10
    &&& forall|i: int| 0 <= i < attempts.len() ==> is_attempt::<T>(n, #[trigger] attempts[i])
    &&& forall|i: int|
        0 <= i < attempts.len() - 1 ==> spec_attempt(
            (#[trigger] attempts[i]).0,
            attempts[i].1,
            n,
        ).is_none()
    &&& factors_view(f) == spec_attempt(attempts.last().0, attempts.last().1, n)
    &&& f.is_none() ==> attempts.len() == 10
}

/// The factors of `n` that a base `a` gives at once, if it has a factor in
/// common with `n`.
pub fn common_factor(a: u32, n: u32) -> (f: Option<(u32, u32)>)
    requires
        n > 0,
    ensures
        match f {
            Some((p, q)) => spec_common_factor(a as nat, n as nat) == Some((p as nat, q as nat)),
            None => spec_common_factor(a as nat, n as nat).is_none(),
        },
        f matches Some((p, q)) ==> p * q == n,
        f matches Some((p, q)) ==> 0 < a < n ==> 1 < p < n && 1 < q < n,
{
    let g = gcd(a as u64, n as u64);
    proof {
        lemma_divisor_bounds(g as nat, n as nat);
        if a > 0 {
            lemma_divisor_bounds(g as nat, a as nat);
        }
    }
    if g == 1 {
        return None;
    }
    let p: u32 = g as u32;
    let q: u32 = n / p;
    proof {
        if 0 < a < n {
            assert(1 < q < n) by (nonlinear_arith)
                requires
                    p * q == n,
                    1 < p < n,
            ;
        }
    }
    Some((p, q))
}

/// Factors `n`: draws a base `a`, and either finds a factor in common with
/// `n` at once or estimates the period of `a^x mod n` and takes the factors
/// from it. After ten bases without success it gives up.
///
/// The bases are drawn at random and the estimates come from measurements,
/// so the result is stated for the attempts that were made: it is what the
/// first attempt that gave factors gave, and nothing if ten attempts gave
/// none. Factors that are returned are proper factors of `n`.
pub fn shors<T: crate::complex::Scalar>(n: u32) -> (f: Option<(u32, u32)>)
    requires
        n > 2,
    ensures
        f matches Some((p, q)) ==> p * q == n && 1 < p < n && 1 < q < n,
        exists|attempts: Seq<(u32, Option<u32>)>| #[trigger] is_search::<T>(n, attempts, f),
{
    let ghost mut made: Seq<(u32, Option<u32>)> = Seq::empty();
    let mut attempt: u32 = 0;
    while attempt < 10
        invariant
            n > 2,
            attempt <= 10,
            made.len() == attempt,
            forall|i: int| 0 <= i < made.len() ==> is_attempt::<T>(n, #[trigger] made[i]),
            forall|i: int|
                0 <= i < made.len() ==> spec_attempt((#[trigger] made[i]).0, made[i].1, n).is_none(),
        decreases 10 - attempt,
    {
        let a = pick_a(n);
        match common_factor(a, n) {
            Some(factors) => {
                proof {
                    let all = made.push((a, None));
                    assert(is_search::<T>(n, all, Some(factors)));
                }
                return Some(factors);
            },
            None => {},
        }
        let period = find_period::<T>(a, n);
        let found = match period {
            Some(r) => find_factors(r, a, n),
            None => None,
        };
        proof {
            let all = made.push((a, period));
            assert(is_attempt::<T>(n, all[attempt as int]));
            assert(factors_view(found) == spec_attempt(a, period, n));
            if found.is_some() {
                assert(is_search::<T>(n, all, found));
            }
            made = all;
        }
        if found.is_some() {
            return found;
        }
        attempt = attempt + 1;
    }
    proof {
        assert(is_search::<T>(n, made, None));
    }
    None
}

} // verus!
