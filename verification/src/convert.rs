//! Conversion from the fixed-width integer types: every integer becomes a
//! decimal exactly, rounded to seventeen significant digits where it is
//! wider than that.

use vstd::prelude::*;

use crate::base10::{
    lemma_n_digits_bounds, lemma_pow10_adds, lemma_pow10_increases, lemma_pow10_values,
    lemma_rdiv_exact, n_digits, pow10, rdiv,
};
use crate::decimal::{normalize_raw, norm_sig, norm_shift, spec_normalize, Decimal};

verus! {

/// What converting the integer `v` yields: the raw pair whose value is `v`,
/// normalized.
pub open spec fn spec_from_int(v: int) -> Decimal {
    spec_normalize(v, 16)
}

/// Normalizing a long mantissa in two steps — first rounding it to
/// seventeen digits, then normalizing the rounded value — is normalizing it
/// in one.
proof fn lemma_normalize_reduce(v: int, e: int)
    requires
        v >= 1,
        n_digits(v as nat) > 17,
    ensures
        spec_normalize(v, e) == spec_normalize(
            rdiv(v, pow10((n_digits(v as nat) - 17) as nat)),
            e + n_digits(v as nat) - 17,
        ),
        spec_normalize(-v, e) == spec_normalize(
            -rdiv(v, pow10((n_digits(v as nat) - 17) as nat)),
            e + n_digits(v as nat) - 17,
        ),
{
    lemma_pow10_values();
    let d = n_digits(v as nat) as int;
    let q = rdiv(v, pow10((d - 17) as nat));
    crate::decimal::lemma_norm_sig_bounds(v);
    if q == pow10(17) {
        assert(norm_sig(v) == pow10(16));
        assert(norm_shift(v) == d - 16);
        assert(n_digits(pow10(17) as nat) == 18) by {
            lemma_pow10_adds(17, 1);
            crate::base10::lemma_n_digits_converse(pow10(17) as nat, 18);
        }
        assert(rdiv(pow10(17), pow10(1)) == pow10(16)) by {
            lemma_rdiv_exact(pow10(16), pow10(1));
            lemma_pow10_adds(16, 1);
        }
        crate::decimal::lemma_norm_sig_bounds(q);
    } else {
        assert(norm_sig(v) == q);
        assert(norm_shift(v) == d - 17);
        assert(pow10(16) <= q < pow10(17));
        crate::base10::lemma_n_digits_converse(q as nat, 17);
        assert(norm_sig(q) == q * pow10(0));
        assert(q * pow10(0) == q) by {
            vstd::arithmetic::mul::lemma_mul_basics(q);
        }
    }
}

/// Converts an unsigned value, rounding past seventeen digits.
pub(crate) fn from_u128_value(v: u128) -> (r: Decimal)
    ensures
        r == spec_from_int(v as int),
        r.wf(),
{
    proof {
        lemma_pow10_values();
    }
    if v == 0 {
        return Decimal::zero();
    }
    let d: u32 = crate::base10::count_digits_u128(v) as u32;
    if d <= 18 {
        proof {
            lemma_n_digits_bounds(v as nat);
            lemma_pow10_increases(d as nat, 34);
        }
        return normalize_raw(v as i128, 16);
    }
    let k: u32 = d - 17;
    let p: u128 = crate::base10::pow10_i128(k) as u128;
    proof {
        lemma_n_digits_bounds(v as nat);
        lemma_pow10_increases(2, k as nat);
        lemma_pow10_even(k as nat);
        vstd::arithmetic::div_mod::lemma_div_is_strictly_smaller(v as int, p as int);
    }
    let q: u128 = v / p;
    let rem: u128 = v % p;
    let half: u128 = p / 2;
    let q2: u128 = if rem >= half {
        q + 1
    } else {
        q
    };
    proof {
        lemma_rdiv_via_parts(v as int, p as int);
        assert(q2 == rdiv(v as int, p as int));
        crate::decimal::lemma_norm_sig_bounds(v as int);
        lemma_normalize_reduce(v as int, 16);
        lemma_pow10_increases(18, 34);
    }
    normalize_raw(q2 as i128, 16 + (d as i64) - 17)
}

/// Converts a signed value, rounding past seventeen digits.
pub(crate) fn from_i128_value(v: i128) -> (r: Decimal)
    ensures
        r == spec_from_int(v as int),
        r.wf(),
{
    proof {
        lemma_pow10_values();
    }
    if v >= 0 {
        return from_u128_value(v as u128);
    }
    let mag: u128 = if v == i128::MIN {
        170141183460469231731687303715884105728u128
    } else {
        (-v) as u128
    };
    if mag <= 0xde0b6b3a7640000 {
        proof {
            lemma_pow10_increases(18, 34);
        }
        return normalize_raw(v as i128, 16);
    }
    let d: u32 = crate::base10::count_digits_u128(mag) as u32;
    proof {
        lemma_n_digits_bounds(mag as nat);
        if d <= 18 {
            lemma_pow10_increases(d as nat, 18);
            assert(false);
        }
    }
    let k: u32 = d - 17;
    let p: u128 = crate::base10::pow10_i128(k) as u128;
    proof {
        lemma_pow10_increases(2, k as nat);
        lemma_pow10_even(k as nat);
        vstd::arithmetic::div_mod::lemma_div_is_strictly_smaller(mag as int, p as int);
    }
    let q: u128 = mag / p;
    let rem: u128 = mag % p;
    let half: u128 = p / 2;
    let q2: u128 = if rem >= half {
        q + 1
    } else {
        q
    };
    proof {
        lemma_rdiv_via_parts(mag as int, p as int);
        assert(q2 == rdiv(mag as int, p as int));
        crate::decimal::lemma_norm_sig_bounds(mag as int);
        lemma_normalize_reduce(mag as int, 16);
        lemma_pow10_increases(18, 34);
    }
    normalize_raw(-(q2 as i128), 16 + (d as i64) - 17)
}

/// Every positive power of ten is even.
proof fn lemma_pow10_even(k: nat)
    requires
        k >= 1,
    ensures
        pow10(k) % 2 == 0,
{
    crate::base10::lemma_pow10_positive((k - 1) as nat);
    assert(pow10(k) == 10 * pow10((k - 1) as nat)) by {
        reveal_with_fuel(pow10, 1);
    }
    vstd::arithmetic::div_mod::lemma_mod_multiples_basic(5 * pow10((k - 1) as nat), 2);
}

/// Rounding division computed from quotient and remainder, for even
/// power-of-ten divisors, avoiding the additive overflow of the direct form.
proof fn lemma_rdiv_via_parts(v: int, p: int)
    requires
        v >= 0,
        p >= 2,
        p % 2 == 0,
    ensures
        rdiv(v, p) == v / p + if v % p >= p / 2 {
            1int
        } else {
            0int
        },
{
    let q = v / p;
    let r = v % p;
    vstd::arithmetic::div_mod::lemma_fundamental_div_mod(v, p);
    assert(v + p / 2 == (r + p / 2) + q * p);
    assert((v + p / 2) / p == q + (r + p / 2) / p) by {
        vstd::arithmetic::div_mod::lemma_hoist_over_denominator(r + p / 2, q, p as nat);
    }
    assert(p / 2 + p / 2 == p);
    if r >= p / 2 {
        assert(p <= r + p / 2 < 2 * p);
        assert((r + p / 2) / p == 1) by {
            vstd::arithmetic::div_mod::lemma_fundamental_div_mod_converse(
                r + p / 2,
                p,
                1,
                r + p / 2 - p,
            );
        }
    } else {
        assert(0 <= r + p / 2 < p);
        assert((r + p / 2) / p == 0) by {
            vstd::arithmetic::div_mod::lemma_basic_div(r + p / 2, p);
        }
    }
}

impl core::convert::From<u128> for Decimal {
    fn from(v: u128) -> (r: Decimal) {
        from_u128_value(v)
    }
}

impl vstd::std_specs::convert::FromSpecImpl<u128> for Decimal {
    open spec fn obeys_from_spec() -> bool {
        true
    }

    open spec fn from_spec(v: u128) -> Decimal {
        spec_from_int(v as int)
    }
}

impl core::convert::From<i128> for Decimal {
    fn from(v: i128) -> (r: Decimal) {
        from_i128_value(v)
    }
}

impl vstd::std_specs::convert::FromSpecImpl<i128> for Decimal {
    open spec fn obeys_from_spec() -> bool {
        true
    }

    open spec fn from_spec(v: i128) -> Decimal {
        spec_from_int(v as int)
    }
}

impl core::convert::From<u64> for Decimal {
    fn from(v: u64) -> (r: Decimal) {
        from_u128_value(v as u128)
    }
}

impl vstd::std_specs::convert::FromSpecImpl<u64> for Decimal {
    open spec fn obeys_from_spec() -> bool {
        true
    }

    open spec fn from_spec(v: u64) -> Decimal {
        spec_from_int(v as int)
    }
}

impl core::convert::From<i64> for Decimal {
    fn from(v: i64) -> (r: Decimal) {
        from_i128_value(v as i128)
    }
}

impl vstd::std_specs::convert::FromSpecImpl<i64> for Decimal {
    open spec fn obeys_from_spec() -> bool {
        true
    }

    open spec fn from_spec(v: i64) -> Decimal {
        spec_from_int(v as int)
    }
}

impl core::convert::From<u32> for Decimal {
    fn from(v: u32) -> (r: Decimal) {
        from_u128_value(v as u128)
    }
}

impl vstd::std_specs::convert::FromSpecImpl<u32> for Decimal {
    open spec fn obeys_from_spec() -> bool {
        true
    }

    open spec fn from_spec(v: u32) -> Decimal {
        spec_from_int(v as int)
    }
}

impl core::convert::From<i32> for Decimal {
    fn from(v: i32) -> (r: Decimal) {
        from_i128_value(v as i128)
    }
}

impl vstd::std_specs::convert::FromSpecImpl<i32> for Decimal {
    open spec fn obeys_from_spec() -> bool {
        true
    }

    open spec fn from_spec(v: i32) -> Decimal {
        spec_from_int(v as int)
    }
}

impl core::convert::From<u16> for Decimal {
    fn from(v: u16) -> (r: Decimal) {
        from_u128_value(v as u128)
    }
}

impl vstd::std_specs::convert::FromSpecImpl<u16> for Decimal {
    open spec fn obeys_from_spec() -> bool {
        true
    }

    open spec fn from_spec(v: u16) -> Decimal {
        spec_from_int(v as int)
    }
}

impl core::convert::From<i16> for Decimal {
    fn from(v: i16) -> (r: Decimal) {
        from_i128_value(v as i128)
    }
}

impl vstd::std_specs::convert::FromSpecImpl<i16> for Decimal {
    open spec fn obeys_from_spec() -> bool {
        true
    }

    open spec fn from_spec(v: i16) -> Decimal {
        spec_from_int(v as int)
    }
}

impl core::convert::From<u8> for Decimal {
    fn from(v: u8) -> (r: Decimal) {
        from_u128_value(v as u128)
    }
}

impl vstd::std_specs::convert::FromSpecImpl<u8> for Decimal {
    open spec fn obeys_from_spec() -> bool {
        true
    }

    open spec fn from_spec(v: u8) -> Decimal {
        spec_from_int(v as int)
    }
}

impl core::convert::From<i8> for Decimal {
    fn from(v: i8) -> (r: Decimal) {
        from_i128_value(v as i128)
    }
}

impl vstd::std_specs::convert::FromSpecImpl<i8> for Decimal {
    open spec fn obeys_from_spec() -> bool {
        true
    }

    open spec fn from_spec(v: i8) -> Decimal {
        spec_from_int(v as int)
    }
}

impl core::convert::From<usize> for Decimal {
    fn from(v: usize) -> (r: Decimal) {
        from_u128_value(v as u128)
    }
}

impl vstd::std_specs::convert::FromSpecImpl<usize> for Decimal {
    open spec fn obeys_from_spec() -> bool {
        true
    }

    open spec fn from_spec(v: usize) -> Decimal {
        spec_from_int(v as int)
    }
}

impl core::convert::From<isize> for Decimal {
    fn from(v: isize) -> (r: Decimal) {
        from_i128_value(v as i128)
    }
}

impl vstd::std_specs::convert::FromSpecImpl<isize> for Decimal {
    open spec fn obeys_from_spec() -> bool {
        true
    }

    open spec fn from_spec(v: isize) -> Decimal {
        spec_from_int(v as int)
    }
}

} // verus!
