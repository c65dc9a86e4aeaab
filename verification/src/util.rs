//! Integer helpers: bit sizes, modular powers and binary strings.

use vstd::arithmetic::power2::pow2;
use vstd::prelude::*;

verus! {

/// `n` needs exactly `k` binary digits: `k` is the least exponent with `n < 2^k`.
pub open spec fn is_bit_size(n: nat, k: nat) -> bool {
    &&& n < pow2(k)
    &&& k > 0 ==> pow2((k - 1) as nat) <= n
}

/// The number of binary digits of `n`: zero for zero, and one more than for
/// the half of `n` otherwise.
pub open spec fn bit_size(n: nat) -> nat
    decreases n,
{
    if n == 0 {
        0
    } else {
        1 + bit_size(n / 2)
    }
}

/// The result of multiplying 1 by `a` exactly `x` times, reducing modulo `n`
/// after every multiplication.
pub open spec fn spec_mod_power(a: nat, x: nat, n: nat) -> nat
    decreases x,
{
    if x == 0 {
        1
    } else {
        (spec_mod_power(a, (x - 1) as nat, n) * a) % n
    }
}

/// The number that a string spells in binary, most significant digit first.
/// Every character other than `'1'` counts as a zero digit.
pub open spec fn bits_value(s: Seq<char>) -> nat
    decreases s.len(),
{
    if s.len() == 0 {
        0
    } else {
        2 * bits_value(s.drop_last()) + (if s.last() == '1' { 1nat } else { 0nat })
    }
}

/// The binary digit of `index` with weight `2^pos`.
pub open spec fn bit_at(index: nat, pos: nat) -> nat {
    (index / pow2(pos)) % 2
}

/// The character that shows a binary digit.
pub open spec fn bit_char(bit: nat) -> char {
    if bit == 1 {
        '1'
    } else {
        '0'
    }
}

/// The `n` low binary digits of `index` as characters, most significant first.
pub open spec fn binary_digits(index: nat, n: nat) -> Seq<char> {
    Seq::new(n, |k: int| bit_char(bit_at(index, (n - 1 - k) as nat)))
}

/// The number of binary digits of `n` is the least exponent `k` with `n < 2^k`.
pub proof fn lemma_bit_size(n: nat)
    ensures
        is_bit_size(n, bit_size(n)),
    decreases n,
{
    vstd::arithmetic::power2::lemma2_to64();
    if n > 0 {
        lemma_bit_size(n / 2);
        let k = bit_size(n / 2);
        vstd::arithmetic::power2::lemma_pow2_unfold(k + 1);
        if k > 0 {
            vstd::arithmetic::power2::lemma_pow2_unfold(k);
        }
    }
}

/// A number has one bit size only.
pub proof fn lemma_bit_size_unique(n: nat, k1: nat, k2: nat)
    requires
        is_bit_size(n, k1),
        is_bit_size(n, k2),
    ensures
        k1 == k2,
{
    if k1 < k2 {
        if k1 < k2 - 1 {
            vstd::arithmetic::power2::lemma_pow2_strictly_increases(k1, (k2 - 1) as nat);
        }
    } else if k2 < k1 {
        if k2 < k1 - 1 {
            vstd::arithmetic::power2::lemma_pow2_strictly_increases(k2, (k1 - 1) as nat);
        }
    }
}

/// For a modulus above 1 the step-wise reduction agrees with the power itself
/// taken modulo `n`.
pub proof fn lemma_mod_power_is_pow(a: nat, x: nat, n: nat)
    requires
        n > 1,
    ensures
        spec_mod_power(a, x, n) == vstd::arithmetic::power::pow(a as int, x) % (n as int),
    decreases x,
{
    reveal(vstd::arithmetic::power::pow);
    if x == 0 {
        vstd::arithmetic::div_mod::lemma_small_mod(1, n);
    } else {
        lemma_mod_power_is_pow(a, (x - 1) as nat, n);
        let p = vstd::arithmetic::power::pow(a as int, (x - 1) as nat);
        vstd::arithmetic::div_mod::lemma_mul_mod_noop_left(p, a as int, n as int);
        assert(vstd::arithmetic::power::pow(a as int, x) == a * p);
        assert(a * p == p * a) by (nonlinear_arith);
    }
}

/// The `n` low binary digits of a number spell the number modulo `2^n`:
/// reading back what was written gives the number, as far as the digits go.
pub proof fn lemma_binary_round_trip(index: nat, n: nat)
    ensures
        bits_value(binary_digits(index, n)) == index % pow2(n),
    decreases n,
{
    vstd::arithmetic::power2::lemma2_to64();
    let digits = binary_digits(index, n);
    if n == 0 {
        assert(index % 1 == 0);
    } else {
        // all digits but the last are the digits of the half of the number
        let front = digits.drop_last();
        let half = binary_digits(index / 2, (n - 1) as nat);
        assert(front =~= half) by {
            assert forall|k: int| 0 <= k < n - 1 implies front[k] == half[k] by {
                let pos = (n - 1 - k) as nat;
                vstd::arithmetic::power2::lemma_pow2_unfold(pos);
                vstd::arithmetic::power2::lemma_pow2_pos((pos - 1) as nat);
                vstd::arithmetic::div_mod::lemma_div_denominator(
                    index as int,
                    2,
                    pow2((pos - 1) as nat) as int,
                );
            }
        }
        lemma_binary_round_trip(index / 2, (n - 1) as nat);
        assert(digits.last() == bit_char(bit_at(index, 0)));
        assert(bit_at(index, 0) == index % 2);
        let p = pow2((n - 1) as nat);
        vstd::arithmetic::power2::lemma_pow2_unfold(n);
        vstd::arithmetic::power2::lemma_pow2_pos((n - 1) as nat);
        vstd::arithmetic::div_mod::lemma_mod_breakdown(index as int, 2, p as int);
    }
}

/// The number of binary digits needed to write `n`, that is the least `k`
/// with `n < 2^k`.
pub fn min_bit_size(n: u32) -> (k: u32)
    ensures
        k == bit_size(n as nat),
        is_bit_size(n as nat, k as nat),
        k <= 32,
{
    proof {
        lemma_bit_size(n as nat);
    }
    let mut k: u32 = 0;
    let mut p: u64 = 1;
    proof {
        vstd::arithmetic::power2::lemma2_to64();
    }
    while p <= n as u64
        invariant
            p == pow2(k as nat),
            k <= 32,
            k > 0 ==> pow2((k - 1) as nat) <= n,
            pow2(32) == 0x1_0000_0000,
        decreases 33 - k,
    {
        proof {
            if k >= 32 {
                if k > 32 {
                    vstd::arithmetic::power2::lemma_pow2_strictly_increases(32, k as nat);
                }
                assert(false);
            }
            vstd::arithmetic::power2::lemma_pow2_unfold((k + 1) as nat);
        }
        p = p * 2;
        k = k + 1;
    }
    proof {
        lemma_bit_size_unique(n as nat, k as nat, bit_size(n as nat));
    }
    k
}

/// Two to the power `k`.
pub fn power_of_two(k: usize) -> (p: usize)
    requires
        pow2(k as nat) <= usize::MAX,
    ensures
        p == pow2(k as nat),
{
    let mut p: usize = 1;
    let mut i: usize = 0;
    proof {
        vstd::arithmetic::power2::lemma2_to64();
    }
    while i < k
        invariant
            i <= k,
            p == pow2(i as nat),
            pow2(k as nat) <= usize::MAX,
        decreases k - i,
    {
        proof {
            vstd::arithmetic::power2::lemma_pow2_unfold((i + 1) as nat);
            if i + 1 < k {
                vstd::arithmetic::power2::lemma_pow2_strictly_increases((i + 1) as nat, k as nat);
            }
        }
        p = p * 2;
        i = i + 1;
    }
    p
}

/// `a` to the power `x` modulo `n`, by `x` multiplications that are each
/// reduced modulo `n`.
pub fn mod_power(a: u32, x: u32, n: u32) -> (r: u32)
    requires
        n > 0,
    ensures
        r == spec_mod_power(a as nat, x as nat, n as nat),
        x > 0 ==> r < n,
{
    let mut res: u32 = 1;
    let mut i: u32 = 0;
    while i < x
        invariant
            i <= x,
            n > 0,
            res == spec_mod_power(a as nat, i as nat, n as nat),
            i > 0 ==> res < n,
        decreases x - i,
    {
        assert((res as u64) * (a as u64) <= 0xffff_ffff * 0xffff_ffff) by (nonlinear_arith)
            requires
                res <= 0xffff_ffff,
                a <= 0xffff_ffff,
        ;
        let wide: u64 = (res as u64) * (a as u64);
        let reduced: u64 = wide % (n as u64);
        res = reduced as u32;
        i = i + 1;
    }
    res
}

/// Doubling inside the machine word: `2 * x + bit` modulo `usize::MAX + 1`.
fn shift_in(x: usize, bit: bool) -> (r: usize)
    ensures
        r as int == (2 * x + (if bit { 1int } else { 0int })) % (usize::MAX + 1),
{
    let half: usize = usize::MAX / 2;
    let low: usize = if x > half {
        x - half - 1
    } else {
        x
    };
    let r: usize = if bit {
        2 * low + 1
    } else {
        2 * low
    };
    proof {
        let m: int = usize::MAX + 1;
        let b: int = if bit { 1 } else { 0 };
        assert(m == 2 * (half + 1));
        if x > half {
            assert(2 * x + b == m + r);
            vstd::arithmetic::div_mod::lemma_mod_add_multiples_vanish(r as int, m);
        }
        vstd::arithmetic::div_mod::lemma_small_mod(r as nat, m as nat);
    }
    r
}

/// Reads a string of binary digits, most significant first. Digits that do
/// not fit the machine word are shifted out at the top, so the result is the
/// spelled number modulo `usize::MAX + 1`.
pub fn binary_string_to_int(s: String) -> (r: usize)
    ensures
        r as int == bits_value(s@) % ((usize::MAX + 1) as nat),
{
    let v = crate::text::chars_of(s.as_str());
    let mut result: usize = 0;
    let mut i: usize = 0;
    proof {
        assert(bits_value(v@.take(0)) == 0);
        vstd::arithmetic::div_mod::lemma_small_mod(0, (usize::MAX + 1) as nat);
    }
    while i < v.len()
        invariant
            i <= v.len(),
            v@ == s@,
            result as int == bits_value(v@.take(i as int)) % ((usize::MAX + 1) as nat),
        decreases v.len() - i,
    {
        let bit = v[i] == '1';
        let next = shift_in(result, bit);
        proof {
            let m: int = usize::MAX + 1;
            let b: int = if bit { 1 } else { 0 };
            let before = v@.take(i as int);
            let after = v@.take(i + 1);
            assert(after.drop_last() =~= before);
            assert(after.last() == v@[i as int]);
            let x = bits_value(before) as int;
            assert(bits_value(after) == 2 * x + b);
            vstd::arithmetic::div_mod::lemma_mul_mod_noop_right(2, x, m);
            vstd::arithmetic::div_mod::lemma_add_mod_noop(2 * x, b, m);
            vstd::arithmetic::div_mod::lemma_add_mod_noop(2 * (x % m), b, m);
        }
        result = next;
        i = i + 1;
    }
    proof {
        assert(v@.take(v@.len() as int) =~= v@);
    }
    result
}

/// The `n` low binary digits of `index`, most significant first.
pub fn index_to_binary_string(index: usize, n: usize) -> (s: String)
    requires
        n <= usize::BITS,
    ensures
        s@ == binary_digits(index as nat, n as nat),
{
    let mut digits: Vec<char> = Vec::new();
    let mut rest: usize = index;
    let mut i: usize = 0;
    proof {
        vstd::arithmetic::power2::lemma2_to64();
    }
    // Digits are produced from the least significant one and turned round below.
    while i < n
        invariant
            i <= n,
            digits.len() == i,
            rest as nat == index as nat / pow2(i as nat),
            forall|j: int| 0 <= j < i ==> digits@[j] == bit_char(bit_at(index as nat, j as nat)),
        decreases n - i,
    {
        let c: char = if rest % 2 == 1 {
            '1'
        } else {
            '0'
        };
        digits.push(c);
        proof {
            let p = pow2(i as nat);
            vstd::arithmetic::power2::lemma_pow2_pos(i as nat);
            vstd::arithmetic::power2::lemma_pow2_unfold((i + 1) as nat);
            vstd::arithmetic::div_mod::lemma_div_denominator(index as int, p as int, 2);
            assert(p * 2 == 2 * p) by (nonlinear_arith);
        }
        rest = rest / 2;
        i = i + 1;
    }
    let mut out = String::new();
    let mut k: usize = 0;
    while k < n
        invariant
            k <= n,
            digits.len() == n,
            forall|j: int| 0 <= j < n ==> digits@[j] == bit_char(bit_at(index as nat, j as nat)),
            out@ == binary_digits(index as nat, n as nat).take(k as int),
        decreases n - k,
    {
        crate::text::push_char(&mut out, digits[n - 1 - k]);
        proof {
            let full = binary_digits(index as nat, n as nat);
            assert(full.take(k + 1) =~= full.take(k as int).push(full[k as int]));
        }
        k = k + 1;
    }
    proof {
        let full = binary_digits(index as nat, n as nat);
        assert(full.take(n as int) =~= full);
    }
    out
}

} // verus!
