//! Squares and square roots. The root of the mantissa is computed as an
//! exact integer square root at seventeen digits; an odd exponent shifts one
//! digit into the radicand — the exact counterpart of the square-root-of-ten
//! mantissa correction — and the exponent is halved rounding down.

use vstd::prelude::*;

use crate::arith::spec_mul;
use crate::base10::{lemma_pow10_values, pow10, pow10_i128};
use crate::decimal::{normalize_raw, spec_nan, spec_normalize, spec_zero, Decimal};

verus! {

/// The integer square root, rounded down.
pub open spec fn sqrt_floor(x: nat) -> nat
    decreases x,
{
    if x == 0 {
        0
    } else {
        let r = 2 * sqrt_floor(x / 4);
        if (r + 1) * (r + 1) <= x {
            r + 1
        } else {
            r
        }
    }
}

/// The integer square root, rounded to nearest. The true root is never
/// half-way between two integers, so no tie rule is needed.
pub open spec fn sqrt_rounded(x: nat) -> nat {
    let s = sqrt_floor(x);
    if x - s * s > s {
        s + 1
    } else {
        s
    }
}

/// `sqrt_floor` brackets the true root.
pub proof fn lemma_sqrt_floor_correct(x: nat)
    ensures
        sqrt_floor(x) * sqrt_floor(x) <= x < (sqrt_floor(x) + 1) * (sqrt_floor(x) + 1),
    decreases x,
{
    if x > 0 {
        lemma_sqrt_floor_correct(x / 4);
        let h = sqrt_floor(x / 4);
        let r = 2 * h;
        vstd::arithmetic::div_mod::lemma_fundamental_div_mod(x as int, 4);
        assert(r * r <= x) by (nonlinear_arith)
            requires
                h * h <= x / 4,
                r == 2 * h,
                4 * (x / 4) <= x,
        ;
        assert(x < (r + 2) * (r + 2)) by (nonlinear_arith)
            requires
                x / 4 < (h + 1) * (h + 1),
                r == 2 * h,
                x <= 4 * (x / 4) + 3,
        ;
        if (r + 1) * (r + 1) <= x {
            assert(sqrt_floor(x) == r + 1);
        } else {
            assert(sqrt_floor(x) == r);
        }
        assert(sqrt_floor(x) * sqrt_floor(x) <= x);
        assert(x < (sqrt_floor(x) + 1) * (sqrt_floor(x) + 1));
    } else {
        assert(sqrt_floor(x) == 0);
        vstd::arithmetic::mul::lemma_mul_basics(1);
        assert(sqrt_floor(x) * sqrt_floor(x) <= x) by {
            vstd::arithmetic::mul::lemma_mul_basics(0);
        }
        assert(x < (sqrt_floor(x) + 1) * (sqrt_floor(x) + 1));
    }
}

/// The rounded root of a bounded radicand is bounded.
pub proof fn lemma_sqrt_rounded_bound(x: nat)
    requires
        x <= pow10(34),
    ensures
        sqrt_rounded(x) <= pow10(17),
        sqrt_floor(x) <= pow10(17),
{
    lemma_pow10_values();
    lemma_sqrt_floor_correct(x);
    let s = sqrt_floor(x);
    crate::base10::lemma_pow10_adds(17, 17);
    if s > pow10(17) {
        assert(s * s > pow10(17) * pow10(17)) by (nonlinear_arith)
            requires
                s > pow10(17),
                pow10(17) >= 1,
        ;
        assert(false);
    }
    if s == pow10(17) {
        assert(s * s == pow10(17) * pow10(17)) by (nonlinear_arith)
            requires
                s == pow10(17),
        ;
        assert(x - s * s == 0);
    }
}

/// The integer square root, rounded down.
pub fn isqrt(x: u128) -> (s: u128)
    requires
        x <= pow10(35),
    ensures
        s == sqrt_floor(x as nat),
    decreases x,
{
    proof {
        lemma_pow10_values();
        lemma_sqrt_floor_correct(x as nat);
        lemma_sqrt_floor_correct((x / 4) as nat);
        if sqrt_floor((x / 4) as nat) > pow10(18) {
            assert(sqrt_floor((x / 4) as nat) * sqrt_floor((x / 4) as nat) > pow10(18) * pow10(
                18,
            )) by (nonlinear_arith)
                requires
                    sqrt_floor((x / 4) as nat) > pow10(18),
                    pow10(18) >= 1,
            ;
            crate::base10::lemma_pow10_adds(18, 18);
            crate::base10::lemma_pow10_increases(35, 36);
            assert(false);
        }
    }
    if x == 0 {
        return 0;
    }
    let h: u128 = isqrt(x / 4);
    let r: u128 = 2 * h;
    proof {
        crate::base10::lemma_pow10_adds(18, 18);
        assert((r + 1) * (r + 1) <= 5 * (pow10(36) as int)) by (nonlinear_arith)
            requires
                0 <= r <= 2 * pow10(18),
                pow10(18) * pow10(18) == pow10(36),
                pow10(18) >= 1,
        ;
        assert(pow10(36) == 1000000000000000000000000000000000000int) by {
            reveal_with_fuel(pow10, 37);
        }
    }
    if (r + 1) * (r + 1) <= x {
        r + 1
    } else {
        r
    }
}

/// The integer square root, rounded to nearest.
pub fn isqrt_rounded(x: u128) -> (s: u128)
    requires
        x <= pow10(34),
    ensures
        s == sqrt_rounded(x as nat),
{
    proof {
        lemma_pow10_values();
        crate::base10::lemma_pow10_increases(34, 35);
        lemma_sqrt_floor_correct(x as nat);
        lemma_sqrt_rounded_bound(x as nat);
    }
    let s: u128 = isqrt(x);
    if x - s * s > s {
        s + 1
    } else {
        s
    }
}

/// The square root: NaN for NaN or a negative value, and otherwise the
/// seventeen-digit root of the mantissa — shifted one digit when the
/// exponent is odd — at half the exponent, rounded down.
pub open spec fn spec_sqrt(a: Decimal) -> Decimal {
    if a.nan || a.mantissa < 0 {
        spec_nan()
    } else if a.mantissa == 0 {
        spec_zero()
    } else if a.exponent % 2 == 0 {
        spec_normalize(sqrt_rounded((a.mantissa * pow10(16)) as nat) as int, a.exponent / 2)
    } else {
        spec_normalize(
            sqrt_rounded((a.mantissa * pow10(17)) as nat) as int,
            (a.exponent - 1) / 2,
        )
    }
}

/// The square root of a well-formed value is well formed.
pub proof fn lemma_sqrt_wf(a: Decimal)
    requires
        a.wf(),
    ensures
        spec_sqrt(a).wf(),
{
    if !a.nan && a.mantissa > 0 {
        if a.exponent % 2 == 0 {
            crate::decimal::lemma_normalize_wf(
                sqrt_rounded((a.mantissa * pow10(16)) as nat) as int,
                a.exponent / 2,
            );
        } else {
            crate::decimal::lemma_normalize_wf(
                sqrt_rounded((a.mantissa * pow10(17)) as nat) as int,
                (a.exponent - 1) / 2,
            );
        }
    }
}

impl Decimal {
    /// The square of the value.
    pub fn sqr(&self) -> (r: Decimal)
        requires
            self.wf(),
        ensures
            r == spec_mul(*self, *self),
            r.wf(),
    {
        proof {
            crate::arith::lemma_ops_wf(*self, *self);
        }
        *self * *self
    }

    /// The cube of the value: the square, multiplied once more.
    pub fn cube(&self) -> (r: Decimal)
        requires
            self.wf(),
        ensures
            r == spec_mul(spec_mul(*self, *self), *self),
            r.wf(),
    {
        proof {
            crate::arith::lemma_ops_wf(*self, *self);
            crate::arith::lemma_ops_wf(spec_mul(*self, *self), *self);
        }
        self.sqr() * *self
    }

    /// The square root.
    pub fn sqrt(&self) -> (r: Decimal)
        requires
            self.wf(),
        ensures
            r == spec_sqrt(*self),
            r.wf(),
    {
        proof {
            lemma_pow10_values();
        }
        if self.nan || self.mantissa < 0 {
            return Decimal::nan();
        }
        if self.mantissa == 0 {
            return Decimal::zero();
        }
        let even: bool = self.exponent % 2 == 0;
        let k: u32 = if even { 16 } else { 17 };
        let p: i128 = pow10_i128(k);
        proof {
            assert(self.mantissa * p <= pow10(34)) by (nonlinear_arith)
                requires
                    0 < self.mantissa <= pow10(17),
                    0 < p <= pow10(17),
                    pow10(17) * pow10(17) == pow10(34),
            ;
            crate::base10::lemma_pow10_adds(17, 17);
            assert(self.mantissa * p >= 0) by (nonlinear_arith)
                requires
                    0 < self.mantissa,
                    0 < p,
            ;
        }
        let x: u128 = (self.mantissa as i128 * p) as u128;
        let s: u128 = isqrt_rounded(x);
        proof {
            lemma_sqrt_rounded_bound(x as nat);
        }
        let e2: i64 = if even {
            self.exponent / 2
        } else {
            (self.exponent - 1) / 2
        };
        normalize_raw(s as i128, e2)
    }
}

} // verus!
