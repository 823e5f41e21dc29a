//! Base-ten arithmetic helpers: powers of ten, decimal digit counts, and
//! division that rounds half away from zero. Normalization and all rounding
//! steps of the arithmetic engine are specified in these terms.

use vstd::prelude::*;

use vstd::arithmetic::div_mod::{
    lemma_basic_div, lemma_div_is_ordered, lemma_div_multiples_vanish,
    lemma_div_pos_is_pos, lemma_fundamental_div_mod,
};
use vstd::arithmetic::mul::{lemma_mul_inequality, lemma_mul_is_distributive_add};
use vstd::arithmetic::power::{lemma_pow_adds, lemma_pow_positive, lemma_pow_strictly_increases, pow};

verus! {

/// `10^k`, the scale factor that moves a decimal point by `k` places.
pub open spec fn pow10(k: nat) -> int
    decreases k,
{
    if k == 0 {
        1
    } else {
        10 * pow10((k - 1) as nat)
    }
}

/// The number of decimal digits of `n` (zero has one digit).
pub open spec fn n_digits(n: nat) -> nat
    decreases n,
{
    if n < 10 {
        1
    } else {
        1 + n_digits(n / 10)
    }
}

/// Division by a positive divisor that rounds half away from zero, the
/// rounding used everywhere a result is trimmed to seventeen digits.
pub open spec fn rdiv(m: int, p: int) -> int {
    if m >= 0 {
        (m + p / 2) / p
    } else {
        -((-m + p / 2) / p)
    }
}

/// `pow10` agrees with the power function of the arithmetic library.
pub proof fn lemma_pow10_is_pow(k: nat)
    ensures
        pow10(k) == pow(10, k),
    decreases k,
{
    reveal(pow);
    if k > 0 {
        lemma_pow10_is_pow((k - 1) as nat);
    }
}

pub broadcast proof fn lemma_pow10_positive(k: nat)
    ensures
        #[trigger] pow10(k) >= 1,
{
    lemma_pow10_is_pow(k);
    lemma_pow_positive(10, k);
}

pub proof fn lemma_pow10_adds(a: nat, b: nat)
    ensures
        pow10(a) * pow10(b) == pow10(a + b),
{
    lemma_pow10_is_pow(a);
    lemma_pow10_is_pow(b);
    lemma_pow10_is_pow(a + b);
    lemma_pow_adds(10, a, b);
}

pub proof fn lemma_pow10_increases(a: nat, b: nat)
    requires
        a <= b,
    ensures
        pow10(a) <= pow10(b),
{
    if a < b {
        lemma_pow10_is_pow(a);
        lemma_pow10_is_pow(b);
        lemma_pow_strictly_increases(10, a, b);
    }
}

pub proof fn lemma_pow10_strictly_increases(a: nat, b: nat)
    requires
        a < b,
    ensures
        pow10(a) < pow10(b),
{
    lemma_pow10_is_pow(a);
    lemma_pow10_is_pow(b);
    lemma_pow_strictly_increases(10, a, b);
}

/// The concrete powers of ten that the machine-integer bounds rest on.
pub proof fn lemma_pow10_values()
    ensures
        pow10(0) == 1,
        pow10(1) == 10,
        pow10(2) == 100,
        pow10(16) == 0x2386f26fc10000,
        pow10(17) == 0x16345785d8a0000,
        pow10(18) == 0xde0b6b3a7640000,
        pow10(33) == 1000000000000000000000000000000000,
        pow10(34) == 10000000000000000000000000000000000,
        pow10(35) == 100000000000000000000000000000000000,
        pow10(38) == 100000000000000000000000000000000000000,
        pow10(39) == 1000000000000000000000000000000000000000,
{
    reveal_with_fuel(pow10, 40);
}

/// `n` has `d` digits exactly when `10^(d-1) <= n < 10^d`.
pub proof fn lemma_n_digits_bounds(n: nat)
    requires
        n >= 1,
    ensures
        pow10((n_digits(n) - 1) as nat) <= n < pow10(n_digits(n)),
        n_digits(n) >= 1,
    decreases n,
{
    if n < 10 {
        reveal_with_fuel(pow10, 2);
    } else {
        let q = n / 10;
        lemma_n_digits_bounds(q);
        let d = n_digits(q);
        lemma_fundamental_div_mod(n as int, 10);
        assert(pow10(d) == 10 * pow10((d - 1) as nat)) by {
            reveal_with_fuel(pow10, 1);
        }
        assert(10 * q >= 10 * pow10((d - 1) as nat)) by {
            lemma_mul_inequality(pow10((d - 1) as nat), q as int, 10);
        }
        assert(n < 10 * (q + 1)) by {
            lemma_fundamental_div_mod(n as int, 10);
        }
        assert(10 * (q + 1) <= 10 * pow10(d)) by {
            lemma_mul_inequality(q + 1 as int, pow10(d), 10);
        }
    }
}

/// The digit count is determined by the bracketing powers of ten.
pub proof fn lemma_n_digits_converse(n: nat, d: nat)
    requires
        n >= 1,
        d >= 1,
        pow10((d - 1) as nat) <= n < pow10(d),
    ensures
        n_digits(n) == d,
{
    lemma_n_digits_bounds(n);
    let k = n_digits(n);
    if k < d {
        lemma_pow10_increases(k, (d - 1) as nat);
        assert(false);
    }
    if k > d {
        lemma_pow10_increases(d, (k - 1) as nat);
        assert(false);
    }
}

/// Rounding division of a nonnegative value brackets the true quotient.
pub proof fn lemma_rdiv_bounds(m: int, p: int)
    requires
        m >= 0,
        p >= 1,
    ensures
        p * rdiv(m, p) <= m + p / 2 < p * (rdiv(m, p) + 1),
        rdiv(m, p) >= 0,
{
    let s = m + p / 2;
    lemma_fundamental_div_mod(s, p);
    lemma_div_pos_is_pos(s, p);
    assert(p * (s / p) <= s) by {
        assert(s % p >= 0);
    }
    assert(s < p * (s / p + 1)) by {
        assert(s % p < p);
        lemma_mul_is_distributive_add(p, s / p, 1);
    }
}

/// A value more than two powers of ten below the divisor rounds to zero.
pub proof fn lemma_rdiv_small(m: int, k: nat)
    requires
        k >= 1,
        0 <= m < pow10((k - 1) as nat),
    ensures
        rdiv(m, pow10(k)) == 0,
{
    let p = pow10(k);
    let h = pow10((k - 1) as nat);
    lemma_pow10_positive(k);
    lemma_pow10_positive((k - 1) as nat);
    assert(p == 10 * h) by {
        reveal_with_fuel(pow10, 1);
    }
    assert(p / 2 == 5 * h) by {
        lemma_div_multiples_vanish(5 * h, 2);
    }
    assert(m + p / 2 < p);
    assert((m + p / 2) / p == 0) by {
        lemma_basic_div(m + p / 2, p);
    }
}

/// Rounding division of an exact multiple is exact.
pub proof fn lemma_rdiv_exact(x: int, p: int)
    requires
        x >= 0,
        p >= 1,
    ensures
        rdiv(x * p, p) == x,
{
    vstd::arithmetic::mul::lemma_mul_nonnegative(x, p);
    assert(p * x + p / 2 == x * p + p / 2);
    vstd::arithmetic::div_mod::lemma_div_multiples_vanish_fancy(x, p / 2, p);
    assert(p / 2 < p) by {
        if p > 1 {
            vstd::arithmetic::div_mod::lemma_div_is_strictly_smaller(p, 2);
        }
    }
}

/// A rounded quotient is bounded by any multiple that bounds the dividend.
pub proof fn lemma_rdiv_le(m: int, p: int, c: int)
    requires
        0 <= m,
        1 <= p,
        0 <= c,
        m < c * p,
    ensures
        0 <= rdiv(m, p) <= c,
{
    lemma_rdiv_bounds(m, p);
    let q = rdiv(m, p);
    vstd::arithmetic::div_mod::lemma_div_is_strictly_smaller(p, 2);
    if q > c {
        lemma_mul_inequality(c + 1, q, p);
        vstd::arithmetic::mul::lemma_mul_is_commutative(c + 1, p);
        vstd::arithmetic::mul::lemma_mul_is_commutative(q, p);
        lemma_mul_is_distributive_add(p, c, 1);
        vstd::arithmetic::mul::lemma_mul_is_commutative(c, p);
        assert(p * q >= p * c + p);
        assert(p * q <= m + p / 2 < c * p + p);
        assert(false);
    }
}

/// `10^k` as a machine integer; the power-of-ten table of the engine.
pub fn pow10_i128(k: u32) -> (r: i128)
    requires
        k <= 38,
    ensures
        r == pow10(k as nat),
        r >= 1,
{
    proof {
        lemma_pow10_values();
    }
    let mut r: i128 = 1;
    let mut i: u32 = 0;
    while i < k
        invariant
            0 <= i <= k <= 38,
            r == pow10(i as nat),
            r >= 1,
        decreases k - i,
    {
        proof {
            lemma_pow10_adds(i as nat, 1);
            lemma_pow10_increases((i + 1) as nat, 38);
            lemma_pow10_values();
        }
        r = r * 10;
        i = i + 1;
    }
    r
}

/// Counts the decimal digits of a positive value.
pub fn count_digits_i128(a: i128) -> (d: u32)
    requires
        a >= 1,
    ensures
        d == n_digits(a as nat),
        1 <= d <= 39,
{
    proof {
        lemma_n_digits_bounds(a as nat);
        if n_digits(a as nat) > 39 {
            lemma_pow10_increases(39, (n_digits(a as nat) - 1) as nat);
            lemma_pow10_values();
            assert(pow10(39) <= a);
            assert(false);
        }
    }
    let mut t: i128 = a;
    let mut d: u32 = 1;
    while t >= 10
        invariant
            t >= 1,
            n_digits(a as nat) == n_digits(t as nat) + d - 1,
            n_digits(a as nat) <= 39,
            1 <= d <= 39,
        decreases t,
    {
        proof {
            lemma_n_digits_bounds(t as nat);
            lemma_n_digits_bounds((t / 10) as nat);
            assert(n_digits(t as nat) == 1 + n_digits((t / 10) as nat));
        }
        t = t / 10;
        d = d + 1;
    }
    d
}

/// Counts the decimal digits of `n` (zero has one digit).
pub(crate) fn count_digits_u128(n: u128) -> (d: u64)
    ensures
        d == n_digits(n as nat),
        1 <= d <= 39,
{
    if n == 0 {
        return 1;
    }
    proof {
        lemma_n_digits_bounds(n as nat);
        if n_digits(n as nat) > 39 {
            lemma_pow10_increases(39, (n_digits(n as nat) - 1) as nat);
            lemma_pow10_values();
            assert(false);
        }
    }
    let mut t: u128 = n;
    let mut d: u64 = 1;
    while t >= 10
        invariant
            t >= 1,
            n_digits(n as nat) == n_digits(t as nat) + d - 1,
            n_digits(n as nat) <= 39,
            1 <= d <= 39,
        decreases t,
    {
        proof {
            lemma_n_digits_bounds(t as nat);
            lemma_n_digits_bounds((t / 10) as nat);
            assert(n_digits(t as nat) == 1 + n_digits((t / 10) as nat));
        }
        t = t / 10;
        d = d + 1;
    }
    d
}

/// Rounding division on machine integers.
pub fn rdiv_i128(m: i128, p: i128) -> (r: i128)
    requires
        1 <= p <= pow10(35),
        -pow10(35) <= m <= pow10(35),
    ensures
        r == rdiv(m as int, p as int),
{
    proof {
        lemma_pow10_values();
    }
    if m >= 0 {
        (m + p / 2) / p
    } else {
        proof {
            lemma_div_pos_is_pos((-(m as int) + p / 2), p as int);
        }
        -((-m + p / 2) / p)
    }
}

} // verus!
