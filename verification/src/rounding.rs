//! Rounding to integers: round, truncate, floor and ceiling, exact on the
//! integer mantissa model.

use vstd::prelude::*;

use crate::base10::{lemma_pow10_values, lemma_rdiv_bounds, pow10, pow10_i128, rdiv, rdiv_i128};
use crate::decimal::{normalize_raw, spec_normalize, spec_zero, Decimal};

verus! {

/// `m` truncated toward zero to a multiple of `p`.
pub open spec fn trunc_mult(m: int, p: int) -> int {
    if m >= 0 {
        (m / p) * p
    } else {
        -(((-m) / p) * p)
    }
}

/// `m` rounded half away from zero to a multiple of `p`.
pub open spec fn round_mult(m: int, p: int) -> int {
    rdiv(m, p) * p
}

/// `m` rounded toward minus infinity to a multiple of `p`.
pub open spec fn floor_mult(m: int, p: int) -> int {
    if m >= 0 {
        (m / p) * p
    } else {
        -((((-m) + p - 1) / p) * p)
    }
}

/// `m` rounded toward plus infinity to a multiple of `p`.
pub open spec fn ceil_mult(m: int, p: int) -> int {
    if m >= 0 {
        ((m + p - 1) / p) * p
    } else {
        -(((-m) / p) * p)
    }
}

/// Rounding to the nearest integer, half away from zero. Magnitudes below
/// one half round to zero; above `10^17` every value is an integer already.
pub open spec fn spec_round(a: Decimal) -> Decimal {
    if a.nan {
        a
    } else if a.exponent < -1 {
        spec_zero()
    } else if a.exponent < 17 {
        spec_normalize(
            round_mult(a.mantissa as int, pow10((16 - a.exponent) as nat)),
            a.exponent as int,
        )
    } else {
        a
    }
}

/// Truncation toward zero.
pub open spec fn spec_trunc(a: Decimal) -> Decimal {
    if a.nan {
        a
    } else if a.exponent < 0 {
        spec_zero()
    } else if a.exponent < 17 {
        spec_normalize(
            trunc_mult(a.mantissa as int, pow10((16 - a.exponent) as nat)),
            a.exponent as int,
        )
    } else {
        a
    }
}

/// Rounding toward minus infinity.
pub open spec fn spec_floor(a: Decimal) -> Decimal {
    if a.nan {
        a
    } else if a.exponent < -1 {
        if a.mantissa > 0 {
            spec_zero()
        } else {
            Decimal { mantissa: (-crate::MANTISSA_SCALE) as i64, exponent: 0, nan: false }
        }
    } else if a.exponent < 17 {
        spec_normalize(
            floor_mult(a.mantissa as int, pow10((16 - a.exponent) as nat)),
            a.exponent as int,
        )
    } else {
        a
    }
}

/// Rounding toward plus infinity.
pub open spec fn spec_ceil(a: Decimal) -> Decimal {
    if a.nan {
        a
    } else if a.exponent < -1 {
        if a.mantissa == 0 || a.mantissa < 0 {
            spec_zero()
        } else {
            crate::decimal::spec_one()
        }
    } else if a.exponent < 17 {
        spec_normalize(
            ceil_mult(a.mantissa as int, pow10((16 - a.exponent) as nat)),
            a.exponent as int,
        )
    } else {
        a
    }
}

impl Decimal {
    /// Rounds to the nearest integer, half away from zero.
    pub fn round(&self) -> (r: Decimal)
        requires
            self.wf(),
        ensures
            r == spec_round(*self),
            r.wf(),
    {
        proof {
            lemma_pow10_values();
        }
        if self.nan {
            return *self;
        }
        if self.exponent < -1 {
            return Decimal::zero();
        }
        if self.exponent >= 17 {
            return *self;
        }
        let p: i128 = pow10_i128((16 - self.exponent) as u32);
        proof {
            crate::base10::lemma_pow10_increases((16 - self.exponent) as nat, 17);
        }
        let q: i128 = rdiv_i128(self.mantissa as i128, p);
        proof {
            lemma_rounded_mult_bounds(self.mantissa as int, p as int);
            if self.mantissa < 0 {
                vstd::arithmetic::mul::lemma_mul_unary_negation(
                    rdiv(-(self.mantissa as int), p as int),
                    p as int,
                );
            }
            assert(q * p == round_mult(self.mantissa as int, p as int));
        }
        normalize_raw(q * p, self.exponent)
    }

    /// Truncates toward zero.
    pub fn trunc(&self) -> (r: Decimal)
        requires
            self.wf(),
        ensures
            r == spec_trunc(*self),
            r.wf(),
    {
        proof {
            lemma_pow10_values();
        }
        if self.nan {
            return *self;
        }
        if self.exponent < 0 {
            return Decimal::zero();
        }
        if self.exponent >= 17 {
            return *self;
        }
        let p: i128 = pow10_i128((16 - self.exponent) as u32);
        proof {
            crate::base10::lemma_pow10_increases((16 - self.exponent) as nat, 17);
        }
        let m: i128 = self.mantissa as i128;
        let q: i128 = if m >= 0 {
            m / p
        } else {
            -((-m) / p)
        };
        proof {
            lemma_rounded_mult_bounds(self.mantissa as int, p as int);
            if self.mantissa < 0 {
                vstd::arithmetic::mul::lemma_mul_unary_negation(
                    (-(self.mantissa as int)) / (p as int),
                    p as int,
                );
            }
            assert(q * p == trunc_mult(self.mantissa as int, p as int));
        }
        normalize_raw(q * p, self.exponent)
    }

    /// Rounds toward minus infinity.
    pub fn floor(&self) -> (r: Decimal)
        requires
            self.wf(),
        ensures
            r == spec_floor(*self),
            r.wf(),
    {
        proof {
            lemma_pow10_values();
        }
        if self.nan {
            return *self;
        }
        if self.exponent < -1 {
            if self.mantissa > 0 {
                return Decimal::zero();
            }
            return Decimal::negative_one();
        }
        if self.exponent >= 17 {
            return *self;
        }
        let p: i128 = pow10_i128((16 - self.exponent) as u32);
        proof {
            crate::base10::lemma_pow10_increases((16 - self.exponent) as nat, 17);
        }
        let m: i128 = self.mantissa as i128;
        let q: i128 = if m >= 0 {
            m / p
        } else {
            -(((-m) + p - 1) / p)
        };
        proof {
            lemma_rounded_mult_bounds(self.mantissa as int, p as int);
            if self.mantissa < 0 {
                vstd::arithmetic::mul::lemma_mul_unary_negation(
                    ((-(self.mantissa as int)) + p - 1) / (p as int),
                    p as int,
                );
            }
            assert(q * p == floor_mult(self.mantissa as int, p as int));
        }
        normalize_raw(q * p, self.exponent)
    }

    /// Rounds toward plus infinity.
    pub fn ceil(&self) -> (r: Decimal)
        requires
            self.wf(),
        ensures
            r == spec_ceil(*self),
            r.wf(),
    {
        proof {
            lemma_pow10_values();
        }
        if self.nan {
            return *self;
        }
        if self.exponent < -1 {
            if self.mantissa == 0 || self.mantissa < 0 {
                return Decimal::zero();
            }
            return Decimal::one();
        }
        if self.exponent >= 17 {
            return *self;
        }
        let p: i128 = pow10_i128((16 - self.exponent) as u32);
        proof {
            crate::base10::lemma_pow10_increases((16 - self.exponent) as nat, 17);
        }
        let m: i128 = self.mantissa as i128;
        let q: i128 = if m >= 0 {
            (m + p - 1) / p
        } else {
            -((-m) / p)
        };
        proof {
            lemma_rounded_mult_bounds(self.mantissa as int, p as int);
            if self.mantissa < 0 {
                vstd::arithmetic::mul::lemma_mul_unary_negation(
                    (-(self.mantissa as int)) / (p as int),
                    p as int,
                );
            }
            assert(q * p == ceil_mult(self.mantissa as int, p as int));
        }
        normalize_raw(q * p, self.exponent)
    }
}

/// Rounding a seventeen-digit mantissa to a multiple of a unit keeps it
/// within the range that normalization accepts, and the quotients stay
/// small enough to multiply back.
pub(crate) proof fn lemma_rounded_mult_bounds(m: int, p: int)
    requires
        -pow10(17) <= m <= pow10(17),
        1 <= p <= pow10(17),
    ensures
        0 <= (if m >= 0 { m } else { -m }) / p,
        0 <= ((if m >= 0 { m } else { -m }) + p - 1) / p,
        0 <= rdiv((if m >= 0 { m } else { -m }), p),
        -pow10(34) <= trunc_mult(m, p) <= pow10(34),
        -pow10(34) <= round_mult(m, p) <= pow10(34),
        -pow10(34) <= floor_mult(m, p) <= pow10(34),
        -pow10(34) <= ceil_mult(m, p) <= pow10(34),
        round_mult(m, p) == if m >= 0 { rdiv(m, p) * p } else { -(rdiv(-m, p) * p) },
        round_mult(m, p) == rdiv(m, p) * p,
        -2 * pow10(17) <= round_mult(m, p) <= 2 * pow10(17),
{
    let a = if m >= 0 { m } else { -m };
    lemma_pow10_values();
    vstd::arithmetic::div_mod::lemma_div_pos_is_pos(a, p);
    vstd::arithmetic::div_mod::lemma_div_pos_is_pos(a + p - 1, p);
    lemma_rdiv_bounds(a, p);
    assert((a / p) * p <= a) by {
        vstd::arithmetic::div_mod::lemma_fundamental_div_mod(a, p);
    }
    assert(0 <= (a / p) * p) by {
        vstd::arithmetic::mul::lemma_mul_nonnegative(a / p, p);
    }
    assert(((a + p - 1) / p) * p <= a + p - 1) by {
        vstd::arithmetic::div_mod::lemma_fundamental_div_mod(a + p - 1, p);
    }
    assert(0 <= ((a + p - 1) / p) * p) by {
        vstd::arithmetic::mul::lemma_mul_nonnegative((a + p - 1) / p, p);
    }
    assert(rdiv(a, p) * p <= a + p / 2) by {
        assert(p * rdiv(a, p) <= a + p / 2);
    }
    assert(0 <= rdiv(a, p) * p) by {
        vstd::arithmetic::mul::lemma_mul_nonnegative(rdiv(a, p), p);
    }
    assert(p / 2 <= p) by {
        vstd::arithmetic::div_mod::lemma_div_is_ordered_by_denominator(p, 1, 2);
        vstd::arithmetic::div_mod::lemma_div_basics_1(p);
    }
    if m < 0 {
        assert(rdiv(m, p) == -rdiv(-m, p));
        assert(rdiv(m, p) * p == -(rdiv(-m, p) * p)) by {
            vstd::arithmetic::mul::lemma_mul_unary_negation(rdiv(-m, p), p);
        }
    }
    crate::base10::lemma_pow10_increases(18, 34);
    assert(pow10(18) == 10 * pow10(17)) by {
        reveal_with_fuel(pow10, 1);
    }
}

} // verus!
