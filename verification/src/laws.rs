//! The algebraic laws of the arithmetic engine, stated over the
//! specification model that the executable operators are proved against.

use vstd::prelude::*;

use core::cmp::Ordering;

use crate::arith::{sdiv, spec_add, spec_div, spec_mul, spec_neg, spec_sub};
use crate::base10::{
    lemma_n_digits_converse, lemma_pow10_adds, lemma_pow10_positive, lemma_pow10_values,
    lemma_rdiv_exact, n_digits, pow10, rdiv,
};
use crate::cmp::{spec_cmp, spec_eq_tolerance, spec_max};
use crate::decimal::{spec_one, spec_zero, Decimal};

verus! {

/// A seventeen-digit magnitude scaled by `10^k` has `17 + k` digits.
proof fn lemma_n_digits_scaled(x: int, k: nat)
    requires
        pow10(16) <= x < pow10(17),
    ensures
        n_digits((x * pow10(k)) as nat) == 17 + k,
{
    lemma_pow10_positive(k);
    assert(x * pow10(k) >= pow10(16) * pow10(k)) by {
        vstd::arithmetic::mul::lemma_mul_inequality(pow10(16), x, pow10(k));
    }
    assert(x * pow10(k) < pow10(17) * pow10(k)) by {
        vstd::arithmetic::mul::lemma_mul_strict_inequality(x, pow10(17), pow10(k));
    }
    lemma_pow10_adds(16, k);
    lemma_pow10_adds(17, k);
    lemma_pow10_positive((16 + k) as nat);
    lemma_n_digits_converse((x * pow10(k)) as nat, 17 + k);
}

/// Addition is commutative: `a + b == b + a` for all well-formed values,
/// NaN included, since the sentinels are canonical.
pub proof fn lemma_add_commutes(a: Decimal, b: Decimal)
    requires
        a.wf(),
        b.wf(),
    ensures
        spec_add(a, b) == spec_add(b, a),
{
    lemma_pow10_values();
    if !a.nan && !b.nan && a.mantissa != 0 && b.mantissa != 0 {
        if a.exponent == b.exponent {
            assert(a.mantissa * pow10(0) + b.mantissa == b.mantissa * pow10(0) + a.mantissa)
                by {
                vstd::arithmetic::mul::lemma_mul_basics(a.mantissa as int);
                vstd::arithmetic::mul::lemma_mul_basics(b.mantissa as int);
            }
        }
    }
}

/// Multiplication is commutative: `a * b == b * a`.
pub proof fn lemma_mul_commutes(a: Decimal, b: Decimal)
    ensures
        spec_mul(a, b) == spec_mul(b, a),
{
}

/// Zero is the additive identity: `a + ZERO == a` for well-formed `a`.
pub proof fn lemma_add_zero_identity(a: Decimal)
    requires
        a.wf(),
    ensures
        spec_add(a, spec_zero()) == a,
{
}

/// One is the multiplicative identity: `a * ONE == a` for well-formed `a`.
pub proof fn lemma_mul_one_identity(a: Decimal)
    requires
        a.wf(),
    ensures
        spec_mul(a, spec_one()) == a,
{
    lemma_pow10_values();
    if !a.nan && a.mantissa != 0 {
        let m = a.mantissa as int;
        let s = pow10(16);
        let raw = m * s;
        let mag = if m > 0 { m } else { -m };
        assert(raw == if m > 0 { mag * s } else { -(mag * s) } ) by {
            vstd::arithmetic::mul::lemma_mul_unary_negation(mag, s);
        }
        lemma_n_digits_scaled(mag, 16);
        assert(n_digits((mag * s) as nat) == 33);
        assert(rdiv(mag * s, pow10(16)) == mag) by {
            lemma_rdiv_exact(mag, pow10(16));
        }
        assert(spec_mul(a, spec_one()) == a);
    }
}

/// The comparator is total on non-NaN values: the two are ordered, they are
/// reported equal exactly when they are the same value, and `a < b` holds
/// exactly when `b > a`, so of `<`, `==` and `>` exactly one holds.
pub proof fn lemma_cmp_trichotomy(a: Decimal, b: Decimal)
    requires
        a.wf(),
        b.wf(),
        !a.nan,
        !b.nan,
    ensures
        spec_cmp(a, b) is Some,
        (spec_cmp(a, b) == Some(Ordering::Equal)) <==> a == b,
        (spec_cmp(a, b) == Some(Ordering::Less)) <==> (spec_cmp(b, a)
            == Some(Ordering::Greater)),
{
}

/// Numeric order of two decimals, with the mantissas brought to a common
/// exponent: what `a < b` means about the represented values.
pub open spec fn num_lt(a: Decimal, b: Decimal) -> bool {
    if a.exponent <= b.exponent {
        a.mantissa < b.mantissa * pow10((b.exponent - a.exponent) as nat)
    } else {
        a.mantissa * pow10((a.exponent - b.exponent) as nat) < b.mantissa
    }
}

/// A normalized mantissa scaled up by at least one digit clears the
/// seventeen-digit bound.
proof fn lemma_scaled_mantissa_large(m: int, k: nat)
    requires
        m >= pow10(16),
        k >= 1,
    ensures
        m * pow10(k) >= pow10(17),
{
    lemma_pow10_values();
    lemma_pow10_positive(k);
    assert(pow10(k) >= 10) by {
        crate::base10::lemma_pow10_increases(1, k);
    }
    assert(m * pow10(k) >= pow10(16) * pow10(k)) by {
        vstd::arithmetic::mul::lemma_mul_inequality(pow10(16), m, pow10(k));
    }
    assert(pow10(16) * pow10(k) >= pow10(16) * 10) by {
        vstd::arithmetic::mul::lemma_mul_left_inequality(pow10(16), 10, pow10(k));
    }
    assert(pow10(16) * 10 == pow10(17)) by {
        lemma_pow10_adds(16, 1);
        assert(pow10(1) == 10);
    }
}

/// The sign of a mantissa survives scaling by a power of ten.
proof fn lemma_scaled_sign(m: int, k: nat)
    ensures
        m > 0 ==> m * pow10(k) > 0,
        m < 0 ==> m * pow10(k) < 0,
        m == 0 ==> m * pow10(k) == 0,
{
    lemma_pow10_positive(k);
    if m > 0 {
        vstd::arithmetic::mul::lemma_mul_strictly_positive(m, pow10(k));
    } else if m < 0 {
        vstd::arithmetic::mul::lemma_mul_strictly_positive(-m, pow10(k));
        vstd::arithmetic::mul::lemma_mul_unary_negation(-m, pow10(k));
    } else {
        vstd::arithmetic::mul::lemma_mul_by_zero_is_zero(pow10(k));
    }
}

/// The structural comparator orders exactly as the represented values do:
/// `a < b` holds precisely when the value of `a` is numerically below the
/// value of `b`.
pub proof fn lemma_cmp_matches_value_order(a: Decimal, b: Decimal)
    requires
        a.wf(),
        b.wf(),
        !a.nan,
        !b.nan,
    ensures
        crate::cmp::spec_lt(a, b) <==> num_lt(a, b),
{
    lemma_pow10_values();
    let ea = a.exponent as int;
    let eb = b.exponent as int;
    let k = if ea <= eb {
        (eb - ea) as nat
    } else {
        (ea - eb) as nat
    };
    lemma_pow10_positive(k);
    lemma_scaled_sign(a.mantissa as int, k);
    lemma_scaled_sign(b.mantissa as int, k);
    if k == 0 {
        vstd::arithmetic::mul::lemma_mul_basics(a.mantissa as int);
        vstd::arithmetic::mul::lemma_mul_basics(b.mantissa as int);
    }
    if a.mantissa != 0 && b.mantissa != 0 && k >= 1 {
        if a.mantissa > 0 && b.mantissa > 0 {
            if ea < eb {
                lemma_scaled_mantissa_large(b.mantissa as int, k);
            } else {
                lemma_scaled_mantissa_large(a.mantissa as int, k);
            }
        }
        if a.mantissa < 0 && b.mantissa < 0 {
            if ea < eb {
                lemma_scaled_mantissa_large(-(b.mantissa as int), k);
                vstd::arithmetic::mul::lemma_mul_unary_negation(
                    -(b.mantissa as int),
                    pow10(k),
                );
            } else {
                lemma_scaled_mantissa_large(-(a.mantissa as int), k);
                vstd::arithmetic::mul::lemma_mul_unary_negation(
                    -(a.mantissa as int),
                    pow10(k),
                );
            }
        }
    }
}

/// A value subtracted from itself is exactly zero.
pub proof fn lemma_sub_self_is_zero(a: Decimal)
    requires
        a.wf(),
        !a.nan,
    ensures
        spec_sub(a, a) == spec_zero(),
{
    lemma_pow10_values();
    if a.mantissa != 0 {
        let n = spec_neg(a);
        assert(a.mantissa * pow10(0) + n.mantissa == 0) by {
            vstd::arithmetic::mul::lemma_mul_basics(a.mantissa as int);
        }
    }
}

/// Tolerance equality is reflexive: every value is within any non-negative
/// tolerance of itself.
pub proof fn lemma_eq_tolerance_reflexive(a: Decimal, tol: Decimal)
    requires
        a.wf(),
        !a.nan,
        tol.wf(),
        !tol.nan,
        tol.mantissa >= 0,
    ensures
        spec_eq_tolerance(a, a, tol),
{
    lemma_pow10_values();
    lemma_sub_self_is_zero(a);
    let m = crate::arith::spec_abs(a);
    assert(spec_max(m, m) == m);
    let bound = spec_mul(tol, m);
    assert(!bound.nan && bound.mantissa >= 0) by {
        if tol.mantissa != 0 && m.mantissa != 0 {
            let p = tol.mantissa * m.mantissa;
            assert(p > 0) by {
                vstd::arithmetic::mul::lemma_mul_strictly_positive(
                    tol.mantissa as int,
                    m.mantissa as int,
                );
            }
            crate::decimal::lemma_norm_sig_bounds(p);
            crate::decimal::lemma_normalize_wf(p, tol.exponent + m.exponent - 16);
        } else {
            assert(tol.mantissa * m.mantissa == 0) by {
                vstd::arithmetic::mul::lemma_mul_by_zero_is_zero(
                    if tol.mantissa == 0 { m.mantissa as int } else { tol.mantissa as int },
                );
            }
        }
    }
}

/// A nonzero value divided by itself is exactly one.
pub proof fn lemma_div_self_is_one(a: Decimal)
    requires
        a.wf(),
        !a.nan,
        a.mantissa != 0,
    ensures
        spec_div(a, a) == spec_one(),
{
    lemma_pow10_values();
    let m = a.mantissa as int;
    let mag = if m > 0 { m } else { -m };
    assert(sdiv(m * pow10(17), m) == pow10(17)) by {
        assert(m * pow10(17) == if m > 0 { mag * pow10(17) } else { -(mag * pow10(17)) }) by {
            vstd::arithmetic::mul::lemma_mul_unary_negation(mag, pow10(17));
        }
        lemma_rdiv_exact(pow10(17), mag);
        assert(pow10(17) * mag == mag * pow10(17)) by {
            vstd::arithmetic::mul::lemma_mul_is_commutative(pow10(17), mag);
        }
    }
    assert(n_digits(pow10(17) as nat) == 18) by {
        lemma_pow10_values();
        lemma_n_digits_scaled(pow10(16), 1);
        assert(pow10(16) * pow10(1) == pow10(17)) by {
            lemma_pow10_adds(16, 1);
        }
    }
    assert(rdiv(pow10(17), pow10(1)) == pow10(16)) by {
        lemma_rdiv_exact(pow10(16), pow10(1));
        assert(pow10(16) * pow10(1) == pow10(17)) by {
            lemma_pow10_adds(16, 1);
        }
    }
    assert(spec_div(a, a) == spec_one());
}

} // verus!
