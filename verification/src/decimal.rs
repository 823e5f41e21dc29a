//! The decimal value type and its normalization invariant.

use vstd::prelude::*;

use crate::base10::{
    count_digits_i128, lemma_n_digits_bounds, lemma_n_digits_converse, lemma_pow10_adds,
    lemma_pow10_increases, lemma_pow10_positive, lemma_pow10_values, lemma_rdiv_bounds,
    n_digits, pow10, pow10_i128, rdiv, rdiv_i128,
};
use crate::EXP_LIMIT;
use crate::MANTISSA_SCALE;

verus! {

/// An extended-range decimal number: `mantissa / 10^16 * 10^exponent`.
///
/// The mantissa is fixed point with scale `10^16`, so the normalized
/// invariant `1 <= |mantissa| < 10` of the represented value reads
/// `10^16 <= |mantissa| < 10^17` on the stored integer. The NaN sentinel is
/// carried in a separate flag with both numeric fields zeroed, so that field
/// equality is canonical.
#[derive(Clone, Copy, Debug, PartialEq, Eq, Structural)]
pub struct Decimal {
    pub mantissa: i64,
    pub exponent: i64,
    pub nan: bool,
}

impl Decimal {
    /// The stored mantissa, in fixed point with scale `10^16`.
    pub fn mantissa(&self) -> (r: i64)
        ensures
            r == self.mantissa,
    {
        self.mantissa
    }

    /// The base-ten exponent.
    pub fn exponent(&self) -> (r: i64)
        ensures
            r == self.exponent,
    {
        self.exponent
    }

    /// Whether this value is the NaN sentinel.
    pub fn is_nan(&self) -> (r: bool)
        ensures
            r == self.nan,
    {
        self.nan
    }

    /// The canonical zero: mantissa and exponent both zero.
    pub fn zero() -> (r: Decimal)
        ensures
            r == spec_zero(),
    {
        Decimal { mantissa: 0, exponent: 0, nan: false }
    }

    /// The NaN sentinel.
    pub fn nan() -> (r: Decimal)
        ensures
            r == spec_nan(),
    {
        Decimal { mantissa: 0, exponent: 0, nan: true }
    }

    /// One.
    pub fn one() -> (r: Decimal)
        ensures
            r == spec_one(),
    {
        Decimal { mantissa: MANTISSA_SCALE, exponent: 0, nan: false }
    }

    /// Minus one.
    pub fn negative_one() -> (r: Decimal)
        ensures
            r == (Decimal { mantissa: (-MANTISSA_SCALE) as i64, exponent: 0, nan: false }),
    {
        Decimal { mantissa: -MANTISSA_SCALE, exponent: 0, nan: false }
    }

    /// The base of the natural logarithm, to seventeen significant digits.
    pub fn euler() -> (r: Decimal)
        ensures
            r == (Decimal { mantissa: 27182818284590452, exponent: 0, nan: false }),
    {
        Decimal { mantissa: 27182818284590452, exponent: 0, nan: false }
    }

    /// The smallest positive value: one at the lowest exponent.
    pub fn min_value() -> (r: Decimal)
        ensures
            r == (Decimal { mantissa: MANTISSA_SCALE, exponent: (-EXP_LIMIT) as i64, nan: false }),
    {
        Decimal { mantissa: MANTISSA_SCALE, exponent: -EXP_LIMIT, nan: false }
    }

    /// The largest value: the positive-infinity sentinel.
    pub fn max_value() -> (r: Decimal)
        ensures
            r == spec_infinity(),
    {
        Decimal { mantissa: MANTISSA_SCALE, exponent: EXP_LIMIT, nan: false }
    }

    /// The positive-infinity sentinel: exponent pinned at `EXP_LIMIT`.
    pub fn infinity() -> (r: Decimal)
        ensures
            r == spec_infinity(),
    {
        Decimal { mantissa: MANTISSA_SCALE, exponent: EXP_LIMIT, nan: false }
    }

    /// The negative-infinity sentinel.
    pub fn neg_infinity() -> (r: Decimal)
        ensures
            r == (Decimal { mantissa: (-MANTISSA_SCALE) as i64, exponent: EXP_LIMIT, nan: false }),
    {
        Decimal { mantissa: -MANTISSA_SCALE, exponent: EXP_LIMIT, nan: false }
    }

    /// Whether the value satisfies the normalization invariant.
    pub open spec fn wf(self) -> bool {
        if self.nan {
            self.mantissa == 0 && self.exponent == 0
        } else if self.mantissa == 0 {
            self.exponent == 0
        } else {
            &&& MANTISSA_SCALE <= self.mantissa < 10 * MANTISSA_SCALE
                || -10 * MANTISSA_SCALE < self.mantissa <= -MANTISSA_SCALE
            &&& -EXP_LIMIT <= self.exponent <= EXP_LIMIT
        }
    }
}

/// The canonical zero.
pub open spec fn spec_zero() -> Decimal {
    Decimal { mantissa: 0, exponent: 0, nan: false }
}

/// The NaN sentinel.
pub open spec fn spec_nan() -> Decimal {
    Decimal { mantissa: 0, exponent: 0, nan: true }
}

/// One.
pub open spec fn spec_one() -> Decimal {
    Decimal { mantissa: MANTISSA_SCALE as i64, exponent: 0, nan: false }
}

/// The positive-infinity sentinel.
pub open spec fn spec_infinity() -> Decimal {
    Decimal { mantissa: MANTISSA_SCALE as i64, exponent: EXP_LIMIT as i64, nan: false }
}

/// The seventeen-digit magnitude that a raw mantissa of magnitude `a >= 1`
/// normalizes to: short mantissas are scaled up exactly, long ones are
/// rounded half away from zero, and a rounding carry falls back by one digit.
pub open spec fn norm_sig(a: int) -> int {
    let d = n_digits(a as nat) as int;
    if d > 17 {
        let q = rdiv(a, pow10((d - 17) as nat));
        if q == pow10(17) {
            pow10(16)
        } else {
            q
        }
    } else {
        a * pow10((17 - d) as nat)
    }
}

/// How far normalization of a raw mantissa of magnitude `a` moves the
/// exponent.
pub open spec fn norm_shift(a: int) -> int {
    let d = n_digits(a as nat) as int;
    if d > 17 && rdiv(a, pow10((d - 17) as nat)) == pow10(17) {
        d - 16
    } else {
        d - 17
    }
}

/// A normalized signed mantissa and exponent, saturated to the exponent
/// range: signed infinity past `EXP_LIMIT`, zero below `-EXP_LIMIT`.
pub open spec fn spec_saturate(m: int, e: int) -> Decimal {
    if e > EXP_LIMIT {
        Decimal {
            mantissa: if m > 0 { MANTISSA_SCALE as i64 } else { (-MANTISSA_SCALE) as i64 },
            exponent: EXP_LIMIT as i64,
            nan: false,
        }
    } else if e < -EXP_LIMIT {
        spec_zero()
    } else {
        Decimal { mantissa: m as i64, exponent: e as i64, nan: false }
    }
}

/// What normalizing the raw pair `(m, e)` — the value `m * 10^(e-16)` —
/// produces: the canonical zero, or a seventeen-digit mantissa with the
/// exponent shifted accordingly and saturated to the exponent range.
pub open spec fn spec_normalize(m: int, e: int) -> Decimal {
    if m == 0 {
        spec_zero()
    } else if m > 0 {
        spec_saturate(norm_sig(m), e + norm_shift(m))
    } else {
        spec_saturate(-norm_sig(-m), e + norm_shift(-m))
    }
}

/// The normalized magnitude has exactly seventeen digits, and the shift is
/// bounded by the digit count of the raw mantissa.
pub proof fn lemma_norm_sig_bounds(a: int)
    requires
        a >= 1,
    ensures
        pow10(16) <= norm_sig(a) < pow10(17),
        n_digits(a as nat) - 17 <= norm_shift(a) <= n_digits(a as nat) - 16,
{
    let d = n_digits(a as nat) as int;
    lemma_n_digits_bounds(a as nat);
    lemma_pow10_values();
    if d > 17 {
        let p = pow10((d - 17) as nat);
        let q = rdiv(a, p);
        lemma_pow10_positive((d - 17) as nat);
        lemma_rdiv_bounds(a, p);
        assert(pow10((d - 1) as nat) == pow10(16) * p) by {
            lemma_pow10_adds(16, (d - 17) as nat);
        }
        assert(pow10(d as nat) == pow10(17) * p) by {
            lemma_pow10_adds(17, (d - 17) as nat);
        }
        assert(q >= pow10(16)) by {
            assert(p * (q + 1) > a + p / 2 >= a >= pow10(16) * p);
            if q + 1 <= pow10(16) {
                vstd::arithmetic::mul::lemma_mul_inequality(q + 1, pow10(16), p);
                assert(false);
            }
        }
        assert(q <= pow10(17)) by {
            assert(p * q <= a + p / 2);
            assert(a < pow10(17) * p);
            assert(p / 2 < p);
            assert(p * q < pow10(17) * p + p);
            if q > pow10(17) {
                assert(q >= pow10(17) + 1);
                vstd::arithmetic::mul::lemma_mul_inequality(pow10(17) + 1, q, p);
                assert(p * (pow10(17) + 1) == pow10(17) * p + p) by {
                    vstd::arithmetic::mul::lemma_mul_is_distributive_add(p, pow10(17), 1);
                }
                assert(false);
            }
        }
    } else {
        assert(norm_sig(a) == a * pow10((17 - d) as nat));
        lemma_pow10_positive((17 - d) as nat);
        assert(a * pow10((17 - d) as nat) >= pow10((d - 1) as nat) * pow10((17 - d) as nat)) by {
            vstd::arithmetic::mul::lemma_mul_inequality(
                pow10((d - 1) as nat),
                a,
                pow10((17 - d) as nat),
            );
        }
        assert(pow10((d - 1) as nat) * pow10((17 - d) as nat) == pow10(16)) by {
            lemma_pow10_adds((d - 1) as nat, (17 - d) as nat);
        }
        assert(a * pow10((17 - d) as nat) < pow10(d as nat) * pow10((17 - d) as nat)) by {
            vstd::arithmetic::mul::lemma_mul_strict_inequality(
                a,
                pow10(d as nat),
                pow10((17 - d) as nat),
            );
        }
        assert(pow10(d as nat) * pow10((17 - d) as nat) == pow10(17)) by {
            lemma_pow10_adds(d as nat, (17 - d) as nat);
        }
    }
}

/// Normalization always yields a well-formed, non-NaN value.
pub proof fn lemma_normalize_wf(m: int, e: int)
    ensures
        spec_normalize(m, e).wf(),
        !spec_normalize(m, e).nan,
{
    lemma_pow10_values();
    if m > 0 {
        lemma_norm_sig_bounds(m);
    } else if m < 0 {
        lemma_norm_sig_bounds(-m);
    }
}

/// Normalization is the identity on values that already satisfy the
/// invariant: normalizing twice is the same as normalizing once.
pub proof fn lemma_normalize_identity(d: Decimal)
    requires
        d.wf(),
        !d.nan,
    ensures
        spec_normalize(d.mantissa as int, d.exponent as int) == d,
{
    lemma_pow10_values();
    if d.mantissa != 0 {
        let a = if d.mantissa > 0 { d.mantissa as int } else { -(d.mantissa as int) };
        lemma_n_digits_converse(a as nat, 17);
        assert(norm_sig(a) == a * pow10(0));
        assert(a * 1 == a) by {
            vstd::arithmetic::mul::lemma_mul_basics(a);
        }
    }
}

/// Normalization is idempotent: renormalizing the fields of a normalized
/// raw pair changes nothing.
pub proof fn lemma_normalize_idempotent(m: int, e: int)
    ensures
        spec_normalize(
            spec_normalize(m, e).mantissa as int,
            spec_normalize(m, e).exponent as int,
        ) == spec_normalize(m, e),
{
    lemma_normalize_wf(m, e);
    lemma_normalize_identity(spec_normalize(m, e));
}

/// Normalizes a raw mantissa/exponent pair held in wide machine integers.
pub(crate) fn normalize_raw(m: i128, e: i64) -> (r: Decimal)
    requires
        -pow10(34) <= m <= pow10(34),
        -3 * EXP_LIMIT <= e <= 3 * EXP_LIMIT,
    ensures
        r == spec_normalize(m as int, e as int),
        r.wf(),
        !r.nan,
{
    proof {
        lemma_pow10_values();
        lemma_normalize_wf(m as int, e as int);
    }
    if m == 0 {
        return Decimal::zero();
    }
    let neg: bool = m < 0;
    let a: i128 = if neg { -m } else { m };
    proof {
        lemma_norm_sig_bounds(a as int);
        lemma_n_digits_bounds(a as nat);
        if n_digits(a as nat) > 35 {
            lemma_pow10_increases(35, (n_digits(a as nat) - 1) as nat);
            assert(false);
        }
    }
    let d: u32 = count_digits_i128(a);
    let sig: i128;
    let shift: i64;
    if d > 17 {
        let p: i128 = pow10_i128(d - 17);
        proof {
            assert(p % 2 == 0) by {
                assert(pow10((d - 17) as nat) == 10 * pow10((d - 18) as nat)) by {
                    reveal_with_fuel(pow10, 1);
                }
                vstd::arithmetic::div_mod::lemma_mod_multiples_basic(
                    5 * pow10((d - 18) as nat),
                    2,
                );
            }
            lemma_pow10_increases((d - 17) as nat, 35);
        }
        let q: i128 = rdiv_i128(a, p);
        let top: i128 = pow10_i128(17);
        if q == top {
            sig = pow10_i128(16);
            shift = (d as i64) - 16;
        } else {
            sig = q;
            shift = (d as i64) - 17;
        }
    } else {
        let p: i128 = pow10_i128(17 - d);
        proof {
            lemma_norm_sig_bounds(a as int);
        }
        sig = a * p;
        shift = (d as i64) - 17;
    }
    let e2: i64 = e + shift;
    if e2 > EXP_LIMIT {
        Decimal {
            mantissa: if neg { -MANTISSA_SCALE } else { MANTISSA_SCALE },
            exponent: EXP_LIMIT,
            nan: false,
        }
    } else if e2 < -EXP_LIMIT {
        Decimal::zero()
    } else {
        let m17: i64 = if neg { -(sig as i64) } else { sig as i64 };
        Decimal { mantissa: m17, exponent: e2, nan: false }
    }
}

impl Decimal {
    /// Returns the normalized form of this value: the canonical
    /// representation of the same number.
    pub fn normalize(&self) -> (r: Decimal)
        ensures
            r == if self.nan { spec_nan() } else {
                spec_normalize(self.mantissa as int, self.exponent as int)
            },
    {
        if self.nan {
            return Decimal::nan();
        }
        crate::decimal::from_mantissa_exponent(self.mantissa, self.exponent)
    }
}

/// How a decimal maps to a native floating-point double: the sentinel cases
/// of the conversion, decided exactly on the integer model.
#[derive(Clone, Copy, Debug, PartialEq, Eq, Structural)]
pub enum NumberClass {
    /// The NaN sentinel.
    Nan,
    /// The exponent exceeds what a double carries: positive infinity.
    PositiveInfinity,
    /// The exponent exceeds what a double carries: negative infinity.
    NegativeInfinity,
    /// The exponent falls below what a double carries: zero.
    Underflow,
    /// Exactly at the smallest double exponent: the smallest positive
    /// double magnitude.
    PositiveMinimum,
    /// Exactly at the smallest double exponent: the smallest negative
    /// double magnitude.
    NegativeMinimum,
    /// Within range: the double is `mantissa * 10^(exponent - 16)`.
    Computable,
}

impl Decimal {
    /// Classifies this value for conversion to a native double: which
    /// saturation case applies, or that `mantissa * 10^(exponent - 16)` is
    /// representable.
    pub fn to_number_class(&self) -> (r: NumberClass)
        ensures
            r == spec_number_class(*self),
    {
        if self.nan {
            NumberClass::Nan
        } else if self.exponent > crate::NUMBER_EXP_MAX {
            if self.mantissa > 0 {
                NumberClass::PositiveInfinity
            } else {
                NumberClass::NegativeInfinity
            }
        } else if self.exponent < crate::NUMBER_EXP_MIN {
            NumberClass::Underflow
        } else if self.exponent == crate::NUMBER_EXP_MIN {
            if self.mantissa > 0 {
                NumberClass::PositiveMinimum
            } else {
                NumberClass::NegativeMinimum
            }
        } else {
            NumberClass::Computable
        }
    }
}

/// The conversion case of a value: NaN, saturation past the double range,
/// the minimum-exponent boundary, or a computable product.
pub open spec fn spec_number_class(a: Decimal) -> NumberClass {
    if a.nan {
        NumberClass::Nan
    } else if a.exponent > crate::NUMBER_EXP_MAX {
        if a.mantissa > 0 {
            NumberClass::PositiveInfinity
        } else {
            NumberClass::NegativeInfinity
        }
    } else if a.exponent < crate::NUMBER_EXP_MIN {
        NumberClass::Underflow
    } else if a.exponent == crate::NUMBER_EXP_MIN {
        if a.mantissa > 0 {
            NumberClass::PositiveMinimum
        } else {
            NumberClass::NegativeMinimum
        }
    } else {
        NumberClass::Computable
    }
}

impl Decimal {
    /// Ten to an integer power, saturated to the exponent range.
    pub fn pow10(power: i64) -> (r: Decimal)
        ensures
            r == spec_saturate(MANTISSA_SCALE as int, power as int),
            r.wf(),
    {
        if power > EXP_LIMIT {
            Decimal::infinity()
        } else if power < -EXP_LIMIT {
            Decimal::zero()
        } else {
            Decimal { mantissa: MANTISSA_SCALE, exponent: power, nan: false }
        }
    }
}

impl Default for Decimal {
    /// The default value is zero.
    fn default() -> (r: Decimal)
        ensures
            r == spec_zero(),
    {
        Decimal::zero()
    }
}

/// Builds a decimal from a raw fixed-point mantissa (scale `10^16`) and
/// exponent, without normalizing. The caller answers for the invariant.
pub fn from_mantissa_exponent_no_normalize(mantissa: i64, exponent: i64) -> (r: Decimal)
    ensures
        r == (Decimal { mantissa, exponent, nan: false }),
{
    Decimal { mantissa, exponent, nan: false }
}

/// Builds a decimal from a raw fixed-point mantissa (scale `10^16`) and
/// exponent, normalizing the pair.
pub fn from_mantissa_exponent(mantissa: i64, exponent: i64) -> (r: Decimal)
    ensures
        r == spec_normalize(mantissa as int, exponent as int),
        r.wf(),
        !r.nan,
{
    proof {
        lemma_pow10_values();
        lemma_normalize_wf(mantissa as int, exponent as int);
    }
    if mantissa == 0 {
        return Decimal::zero();
    }
    let a: i128 = if mantissa < 0 { -(mantissa as i128) } else { mantissa as i128 };
    proof {
        lemma_n_digits_bounds(a as nat);
        if n_digits(a as nat) > 19 {
            lemma_pow10_increases(19, (n_digits(a as nat) - 1) as nat);
            reveal_with_fuel(pow10, 20);
            assert(false);
        }
        if mantissa > 0 {
            lemma_norm_sig_bounds(mantissa as int);
        } else {
            lemma_norm_sig_bounds(-mantissa as int);
        }
    }
    if exponent > 3 * EXP_LIMIT {
        Decimal {
            mantissa: if mantissa < 0 { -MANTISSA_SCALE } else { MANTISSA_SCALE },
            exponent: EXP_LIMIT,
            nan: false,
        }
    } else if exponent < -3 * EXP_LIMIT {
        Decimal::zero()
    } else {
        normalize_raw(mantissa as i128, exponent)
    }
}

} // verus!
