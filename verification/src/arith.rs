//! The arithmetic engine: negation, absolute value, addition, subtraction,
//! multiplication, division and reciprocal, each specified exactly over the
//! integer mantissa/exponent model with a single rounding step in
//! normalization.

use vstd::prelude::*;

use crate::base10::{
    lemma_pow10_adds, lemma_pow10_increases, lemma_pow10_values, lemma_rdiv_bounds, pow10,
    pow10_i128, rdiv, rdiv_i128,
};
use crate::decimal::{normalize_raw, spec_nan, spec_normalize, Decimal};

verus! {

/// Negation: the mantissa sign flips, nothing else moves.
pub open spec fn spec_neg(a: Decimal) -> Decimal {
    if a.nan {
        spec_nan()
    } else {
        Decimal { mantissa: (-(a.mantissa as int)) as i64, exponent: a.exponent, nan: false }
    }
}

/// Absolute value: the mantissa sign clears, nothing else moves.
pub open spec fn spec_abs(a: Decimal) -> Decimal {
    if a.nan {
        spec_nan()
    } else if a.mantissa < 0 {
        spec_neg(a)
    } else {
        a
    }
}

/// Addition. A zero operand short-circuits; when the exponents are more
/// than seventeen digits apart the smaller operand is insignificant and the
/// larger is returned unchanged; otherwise the exact integer sum of the two
/// mantissas, aligned at the smaller exponent, is normalized.
pub open spec fn spec_add(a: Decimal, b: Decimal) -> Decimal {
    if a.nan || b.nan {
        spec_nan()
    } else if a.mantissa == 0 {
        b
    } else if b.mantissa == 0 {
        a
    } else {
        let big = if a.exponent >= b.exponent { a } else { b };
        let small = if a.exponent >= b.exponent { b } else { a };
        let gap = big.exponent - small.exponent;
        if gap > 17 {
            big
        } else {
            spec_normalize(
                big.mantissa * pow10(gap as nat) + small.mantissa,
                small.exponent as int,
            )
        }
    }
}

/// Subtraction is addition of the negation.
pub open spec fn spec_sub(a: Decimal, b: Decimal) -> Decimal {
    spec_add(a, spec_neg(b))
}

/// Multiplication: the exact product of the mantissas at the sum of the
/// exponents, normalized.
pub open spec fn spec_mul(a: Decimal, b: Decimal) -> Decimal {
    if a.nan || b.nan {
        spec_nan()
    } else {
        spec_normalize(a.mantissa * b.mantissa, a.exponent + b.exponent - 16)
    }
}

/// Division that rounds half away from zero, for a divisor of either sign.
pub open spec fn sdiv(x: int, y: int) -> int {
    if y >= 0 {
        rdiv(x, y)
    } else {
        rdiv(-x, -y)
    }
}

/// Division: the mantissa quotient carried to seventeen significant digits
/// with one rounding, at the difference of the exponents. Dividing by zero
/// or by NaN yields NaN.
pub open spec fn spec_div(a: Decimal, b: Decimal) -> Decimal {
    if a.nan || b.nan || b.mantissa == 0 {
        spec_nan()
    } else {
        spec_normalize(
            sdiv(a.mantissa * pow10(17), b.mantissa as int),
            a.exponent - b.exponent - 1,
        )
    }
}

/// Reciprocal: seventeen digits of `1 / mantissa` at the negated exponent.
/// The reciprocal of zero or NaN is NaN.
pub open spec fn spec_recip(a: Decimal) -> Decimal {
    if a.nan || a.mantissa == 0 {
        spec_nan()
    } else {
        spec_normalize(sdiv(pow10(33), a.mantissa as int), -a.exponent - 1)
    }
}

impl core::ops::Neg for Decimal {
    type Output = Decimal;

    fn neg(self) -> (r: Decimal) {
        neg_impl(self)
    }
}

impl vstd::std_specs::ops::NegSpecImpl for Decimal {
    open spec fn obeys_neg_spec() -> bool {
        true
    }

    open spec fn neg_req(self) -> bool {
        self.wf()
    }

    open spec fn neg_spec(self) -> Decimal {
        spec_neg(self)
    }
}

impl core::ops::Add<Decimal> for Decimal {
    type Output = Decimal;

    fn add(self, rhs: Decimal) -> (r: Decimal) {
        add_impl(self, rhs)
    }
}

impl vstd::std_specs::ops::AddSpecImpl<Decimal> for Decimal {
    open spec fn obeys_add_spec() -> bool {
        true
    }

    open spec fn add_req(self, rhs: Decimal) -> bool {
        self.wf() && rhs.wf()
    }

    open spec fn add_spec(self, rhs: Decimal) -> Decimal {
        spec_add(self, rhs)
    }
}

impl core::ops::Sub<Decimal> for Decimal {
    type Output = Decimal;

    fn sub(self, rhs: Decimal) -> (r: Decimal) {
        add_impl(self, neg_impl(rhs))
    }
}

impl vstd::std_specs::ops::SubSpecImpl<Decimal> for Decimal {
    open spec fn obeys_sub_spec() -> bool {
        true
    }

    open spec fn sub_req(self, rhs: Decimal) -> bool {
        self.wf() && rhs.wf()
    }

    open spec fn sub_spec(self, rhs: Decimal) -> Decimal {
        spec_sub(self, rhs)
    }
}

impl core::ops::Mul<Decimal> for Decimal {
    type Output = Decimal;

    fn mul(self, rhs: Decimal) -> (r: Decimal) {
        mul_impl(self, rhs)
    }
}

impl vstd::std_specs::ops::MulSpecImpl<Decimal> for Decimal {
    open spec fn obeys_mul_spec() -> bool {
        true
    }

    open spec fn mul_req(self, rhs: Decimal) -> bool {
        self.wf() && rhs.wf()
    }

    open spec fn mul_spec(self, rhs: Decimal) -> Decimal {
        spec_mul(self, rhs)
    }
}

impl core::ops::Div<Decimal> for Decimal {
    type Output = Decimal;

    fn div(self, rhs: Decimal) -> (r: Decimal) {
        div_impl(self, rhs)
    }
}

impl vstd::std_specs::ops::DivSpecImpl<Decimal> for Decimal {
    open spec fn obeys_div_spec() -> bool {
        true
    }

    open spec fn div_req(self, rhs: Decimal) -> bool {
        self.wf() && rhs.wf()
    }

    open spec fn div_spec(self, rhs: Decimal) -> Decimal {
        spec_div(self, rhs)
    }
}

/// The body shared by unary `-` on every operand shape.
fn neg_impl(a: Decimal) -> (r: Decimal)
    requires
        a.wf(),
    ensures
        r == spec_neg(a),
        r.wf(),
{
    if a.nan {
        Decimal::nan()
    } else {
        Decimal { mantissa: -a.mantissa, exponent: a.exponent, nan: false }
    }
}

/// The body shared by `+` on every operand shape.
fn add_impl(a: Decimal, b: Decimal) -> (r: Decimal)
    requires
        a.wf(),
        b.wf(),
    ensures
        r == spec_add(a, b),
        r.wf(),
{
    proof {
        lemma_pow10_values();
    }
    if a.nan || b.nan {
        return Decimal::nan();
    }
    if a.mantissa == 0 {
        return b;
    }
    if b.mantissa == 0 {
        return a;
    }
    let big: Decimal;
    let small: Decimal;
    if a.exponent >= b.exponent {
        big = a;
        small = b;
    } else {
        big = b;
        small = a;
    }
    let gap: i64 = big.exponent - small.exponent;
    if gap > 17 {
        return big;
    }
    let scale: i128 = pow10_i128(gap as u32);
    proof {
        lemma_pow10_increases(gap as nat, 17);
        assert(big.mantissa * scale <= (pow10(17) - 1) * pow10(17)) by (nonlinear_arith)
            requires
                big.mantissa <= pow10(17) - 1,
                1 <= scale <= pow10(17),
                big.mantissa * pow10(gap as nat) == big.mantissa * scale,
        ;
        assert(big.mantissa * scale >= -((pow10(17) - 1) * pow10(17))) by (nonlinear_arith)
            requires
                big.mantissa >= -(pow10(17) - 1),
                1 <= scale <= pow10(17),
        ;
        assert((pow10(17) - 1) * pow10(17) == pow10(34) - pow10(17)) by {
            lemma_pow10_adds(17, 17);
            vstd::arithmetic::mul::lemma_mul_is_distributive_sub_other_way(
                pow10(17),
                pow10(17),
                1,
            );
        }
    }
    let s: i128 = (big.mantissa as i128) * scale + (small.mantissa as i128);
    proof {
        lemma_normalize_wf_auto(s as int, small.exponent as int);
    }
    normalize_raw(s, small.exponent)
}

/// The body shared by `*` on every operand shape.
fn mul_impl(a: Decimal, b: Decimal) -> (r: Decimal)
    requires
        a.wf(),
        b.wf(),
    ensures
        r == spec_mul(a, b),
        r.wf(),
{
    proof {
        lemma_pow10_values();
    }
    if a.nan || b.nan {
        return Decimal::nan();
    }
    proof {
        assert(-pow10(34) <= a.mantissa * b.mantissa <= pow10(34)) by (nonlinear_arith)
            requires
                -pow10(17) <= a.mantissa <= pow10(17),
                -pow10(17) <= b.mantissa <= pow10(17),
                pow10(17) * pow10(17) == pow10(34),
        ;
        lemma_pow10_adds(17, 17);
    }
    let p: i128 = (a.mantissa as i128) * (b.mantissa as i128);
    normalize_raw(p, a.exponent + b.exponent - 16)
}

/// The body shared by `/` on every operand shape.
fn div_impl(a: Decimal, b: Decimal) -> (r: Decimal)
    requires
        a.wf(),
        b.wf(),
    ensures
        r == spec_div(a, b),
        r.wf(),
{
    proof {
        lemma_pow10_values();
    }
    if a.nan || b.nan || b.mantissa == 0 {
        return Decimal::nan();
    }
    let scale: i128 = pow10_i128(17);
    proof {
        assert((pow10(17) - 1) * pow10(17) == pow10(34) - pow10(17)) by {
            lemma_pow10_adds(17, 17);
            vstd::arithmetic::mul::lemma_mul_is_distributive_sub_other_way(
                pow10(17),
                pow10(17),
                1,
            );
        }
        assert(-(pow10(34) - pow10(17)) <= a.mantissa * scale <= pow10(34) - pow10(17))
            by (nonlinear_arith)
            requires
                -(pow10(17) - 1) <= a.mantissa <= pow10(17) - 1,
                scale == pow10(17),
                (pow10(17) - 1) * pow10(17) == pow10(34) - pow10(17),
        ;
    }
    let num: i128 = (a.mantissa as i128) * scale;
    let q: i128;
    if b.mantissa > 0 {
        q = rdiv_i128(num, b.mantissa as i128);
    } else {
        q = rdiv_i128(-num, -(b.mantissa as i128));
    }
    proof {
        lemma_sdiv_quotient_bound(num as int, b.mantissa as int);
    }
    normalize_raw(q, a.exponent - b.exponent - 1)
}

impl Decimal {
    /// The absolute value: the mantissa sign clears, the exponent stays.
    pub fn abs(&self) -> (r: Decimal)
        requires
            self.wf(),
        ensures
            r == spec_abs(*self),
            r.wf(),
    {
        if self.nan {
            Decimal::nan()
        } else if self.mantissa < 0 {
            Decimal { mantissa: -self.mantissa, exponent: self.exponent, nan: false }
        } else {
            *self
        }
    }

    /// Adds nine to the value.
    pub fn egg(&self) -> (r: Decimal)
        requires
            self.wf(),
        ensures
            r == spec_add(*self, Decimal { mantissa: 90000000000000000, exponent: 0, nan: false }),
            r.wf(),
    {
        proof {
            lemma_ops_wf(
                *self,
                Decimal { mantissa: 90000000000000000, exponent: 0, nan: false },
            );
        }
        *self + Decimal { mantissa: 90000000000000000, exponent: 0, nan: false }
    }

    /// The reciprocal. The reciprocal of zero or NaN is NaN.
    pub fn recip(&self) -> (r: Decimal)
        requires
            self.wf(),
        ensures
            r == spec_recip(*self),
            r.wf(),
    {
        proof {
            lemma_pow10_values();
        }
        if self.nan || self.mantissa == 0 {
            return Decimal::nan();
        }
        let num: i128 = pow10_i128(33);
        let q: i128;
        if self.mantissa > 0 {
            q = rdiv_i128(num, self.mantissa as i128);
        } else {
            q = rdiv_i128(-num, -(self.mantissa as i128));
        }
        proof {
            lemma_sdiv_quotient_bound(num as int, self.mantissa as int);
        }
        normalize_raw(q, -self.exponent - 1)
    }
}

/// The quotient of a mantissa division stays within the range that
/// normalization accepts.
proof fn lemma_sdiv_quotient_bound(x: int, y: int)
    requires
        -pow10(34) <= x <= pow10(34),
        y != 0,
        -pow10(17) <= y <= pow10(17),
        pow10(16) <= y || y <= -pow10(16),
    ensures
        -pow10(34) <= sdiv(x, y) <= pow10(34),
{
    lemma_pow10_values();
    lemma_quotient_bound_pos(if x >= 0 { x } else { -x }, if y > 0 { y } else { -y });
}

/// For nonnegative `x` and a sixteen-digit-or-larger divisor, the rounded
/// quotient is bounded by `10^19`.
proof fn lemma_quotient_bound_pos(x: int, y: int)
    requires
        0 <= x <= pow10(34),
        pow10(16) <= y <= pow10(17),
    ensures
        0 <= rdiv(x, y) <= pow10(34),
        rdiv(-x, y) == -rdiv(x, y) || x == 0,
        -pow10(34) <= rdiv(-x, y) <= 0,
{
    lemma_pow10_values();
    lemma_rdiv_bounds(x, y);
    let q = (x + y / 2) / y;
    assert(rdiv(x, y) == q);
    assert(rdiv(-x, y) == if x == 0 { q } else { -q });
    if x == 0 {
        assert(y / 2 < y) by {
            vstd::arithmetic::div_mod::lemma_div_is_strictly_smaller(y, 2);
        }
        assert(q == 0) by {
            vstd::arithmetic::div_mod::lemma_basic_div(y / 2, y);
        }
    }
    if q > pow10(34) {
        assert(y * q >= pow10(16) * (pow10(34) + 1)) by (nonlinear_arith)
            requires
                y >= pow10(16),
                q >= pow10(34) + 1,
                pow10(16) >= 1,
                pow10(34) >= 1,
        ;
        assert(pow10(16) * (pow10(34) + 1) == pow10(50) + pow10(16)) by {
            lemma_pow10_adds(16, 34);
            vstd::arithmetic::mul::lemma_mul_is_distributive_add(pow10(16), pow10(34), 1);
            vstd::arithmetic::mul::lemma_mul_basics(pow10(16));
        }
        assert(y / 2 <= y) by {
            vstd::arithmetic::div_mod::lemma_div_is_ordered_by_denominator(y, 1, 2);
            vstd::arithmetic::div_mod::lemma_div_basics_1(y);
        }
        assert(pow10(50) >= pow10(35)) by {
            lemma_pow10_increases(35, 50);
        }
        assert(y * q <= x + y / 2 <= pow10(34) + pow10(17));
        assert(false);
    }
}

/// Saturation keeps normalization inside the machine ranges; restated with
/// the trigger shape the callers need.
proof fn lemma_normalize_wf_auto(m: int, e: int)
    ensures
        spec_normalize(m, e).wf(),
        !spec_normalize(m, e).nan,
{
    crate::decimal::lemma_normalize_wf(m, e);
}

/// Every operation of the engine preserves well-formedness.
pub proof fn lemma_ops_wf(a: Decimal, b: Decimal)
    requires
        a.wf(),
        b.wf(),
    ensures
        spec_neg(a).wf(),
        spec_abs(a).wf(),
        spec_add(a, b).wf(),
        spec_sub(a, b).wf(),
        spec_mul(a, b).wf(),
        spec_div(a, b).wf(),
        spec_recip(a).wf(),
{
    lemma_normalize_wf_auto(
        spec_add(a, spec_neg(b)).mantissa as int,
        spec_add(a, spec_neg(b)).exponent as int,
    );
    if !a.nan && !b.nan && a.mantissa != 0 && b.mantissa != 0 {
        let big = if a.exponent >= b.exponent { a } else { b };
        let small = if a.exponent >= b.exponent { b } else { a };
        let gap = big.exponent - small.exponent;
        if gap <= 17 {
            lemma_normalize_wf_auto(
                big.mantissa * pow10(gap as nat) + small.mantissa,
                small.exponent as int,
            );
        }
    }
    if !a.nan && !b.nan && a.mantissa != 0 && b.mantissa != 0 {
        let nb = spec_neg(b);
        let big = if a.exponent >= nb.exponent { a } else { nb };
        let small = if a.exponent >= nb.exponent { nb } else { a };
        let gap = big.exponent - small.exponent;
        if gap <= 17 {
            lemma_normalize_wf_auto(
                big.mantissa * pow10(gap as nat) + small.mantissa,
                small.exponent as int,
            );
        }
    }
    lemma_normalize_wf_auto(a.mantissa * b.mantissa, a.exponent + b.exponent - 16);
    lemma_normalize_wf_auto(
        sdiv(a.mantissa * pow10(17), b.mantissa as int),
        a.exponent - b.exponent - 1,
    );
    lemma_normalize_wf_auto(sdiv(pow10(33), a.mantissa as int), -a.exponent - 1);
}

} // verus!
