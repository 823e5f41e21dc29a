//! The comparator: total order on non-NaN values, tolerance-based
//! comparison, and minimum / maximum / clamp.

use vstd::prelude::*;

use core::cmp::Ordering;

use crate::arith::{spec_abs, spec_mul, spec_sub};
use crate::decimal::Decimal;

verus! {

/// The ordering of two decimals: `None` exactly when either is NaN. Zero
/// compares by the other operand's sign; operands of opposite sign compare
/// by sign; for equal signs the exponent decides, then the mantissa, with
/// the exponent comparison inverted for negative values.
pub open spec fn spec_cmp(a: Decimal, b: Decimal) -> Option<Ordering> {
    if a.nan || b.nan {
        None
    } else if a.mantissa == 0 {
        if b.mantissa == 0 {
            Some(Ordering::Equal)
        } else if b.mantissa < 0 {
            Some(Ordering::Greater)
        } else {
            Some(Ordering::Less)
        }
    } else if b.mantissa == 0 {
        if a.mantissa < 0 {
            Some(Ordering::Less)
        } else {
            Some(Ordering::Greater)
        }
    } else if a.mantissa > 0 {
        if b.mantissa < 0 {
            Some(Ordering::Greater)
        } else if a.exponent > b.exponent {
            Some(Ordering::Greater)
        } else if a.exponent < b.exponent {
            Some(Ordering::Less)
        } else if a.mantissa > b.mantissa {
            Some(Ordering::Greater)
        } else if a.mantissa < b.mantissa {
            Some(Ordering::Less)
        } else {
            Some(Ordering::Equal)
        }
    } else {
        if b.mantissa > 0 {
            Some(Ordering::Less)
        } else if a.exponent > b.exponent {
            Some(Ordering::Less)
        } else if a.exponent < b.exponent {
            Some(Ordering::Greater)
        } else if a.mantissa > b.mantissa {
            Some(Ordering::Greater)
        } else if a.mantissa < b.mantissa {
            Some(Ordering::Less)
        } else {
            Some(Ordering::Equal)
        }
    }
}

/// Strictly less, by the comparator; false when either side is NaN.
pub open spec fn spec_lt(a: Decimal, b: Decimal) -> bool {
    spec_cmp(a, b) == Some(Ordering::Less)
}

/// Less or equal, by the comparator; false when either side is NaN.
pub open spec fn spec_le(a: Decimal, b: Decimal) -> bool {
    spec_cmp(a, b) matches Some(Ordering::Less | Ordering::Equal)
}

/// Strictly greater, by the comparator; false when either side is NaN.
pub open spec fn spec_gt(a: Decimal, b: Decimal) -> bool {
    spec_cmp(a, b) == Some(Ordering::Greater)
}

/// The larger operand; the second when they are equal or unordered.
pub open spec fn spec_max(a: Decimal, b: Decimal) -> Decimal {
    if spec_cmp(a, b) == Some(Ordering::Greater) {
        a
    } else {
        b
    }
}

/// The smaller operand; the second when they are equal or unordered.
pub open spec fn spec_min(a: Decimal, b: Decimal) -> Decimal {
    if spec_cmp(a, b) == Some(Ordering::Less) {
        a
    } else {
        b
    }
}

/// Relative tolerance equality: `|a - b| <= tol * max(|a|, |b|)`.
pub open spec fn spec_eq_tolerance(a: Decimal, b: Decimal, tol: Decimal) -> bool {
    spec_le(
        spec_abs(spec_sub(a, b)),
        spec_mul(tol, spec_max(spec_abs(a), spec_abs(b))),
    )
}

impl PartialOrd for Decimal {
    fn partial_cmp(&self, other: &Decimal) -> (r: Option<Ordering>) {
        if self.nan || other.nan {
            None
        } else if self.mantissa == 0 {
            if other.mantissa == 0 {
                Some(Ordering::Equal)
            } else if other.mantissa < 0 {
                Some(Ordering::Greater)
            } else {
                Some(Ordering::Less)
            }
        } else if other.mantissa == 0 {
            if self.mantissa < 0 {
                Some(Ordering::Less)
            } else {
                Some(Ordering::Greater)
            }
        } else if self.mantissa > 0 {
            if other.mantissa < 0 {
                Some(Ordering::Greater)
            } else if self.exponent > other.exponent {
                Some(Ordering::Greater)
            } else if self.exponent < other.exponent {
                Some(Ordering::Less)
            } else if self.mantissa > other.mantissa {
                Some(Ordering::Greater)
            } else if self.mantissa < other.mantissa {
                Some(Ordering::Less)
            } else {
                Some(Ordering::Equal)
            }
        } else {
            if other.mantissa > 0 {
                Some(Ordering::Less)
            } else if self.exponent > other.exponent {
                Some(Ordering::Less)
            } else if self.exponent < other.exponent {
                Some(Ordering::Greater)
            } else if self.mantissa > other.mantissa {
                Some(Ordering::Greater)
            } else if self.mantissa < other.mantissa {
                Some(Ordering::Less)
            } else {
                Some(Ordering::Equal)
            }
        }
    }
}

impl vstd::std_specs::cmp::PartialOrdSpecImpl for Decimal {
    open spec fn obeys_partial_cmp_spec() -> bool {
        true
    }

    open spec fn partial_cmp_spec(&self, other: &Decimal) -> Option<Ordering> {
        spec_cmp(*self, *other)
    }
}

impl Decimal {
    /// The larger of the two values; `other` when they are equal or when
    /// either is NaN.
    pub fn max(&self, other: &Decimal) -> (r: Decimal)
        ensures
            r == spec_max(*self, *other),
    {
        if self.gt(other) {
            *self
        } else {
            *other
        }
    }

    /// The smaller of the two values; `other` when they are equal or when
    /// either is NaN.
    pub fn min(&self, other: &Decimal) -> (r: Decimal)
        ensures
            r == spec_min(*self, *other),
    {
        if self.lt(other) {
            *self
        } else {
            *other
        }
    }

    /// This value held to the range `[min, max]`.
    pub fn clamp(&self, min: &Decimal, max: &Decimal) -> (r: Decimal)
        ensures
            r == spec_min(spec_max(*self, *min), *max),
    {
        self.max(min).min(max)
    }

    /// Comparison that treats values within the relative tolerance as equal.
    pub fn cmp_tolerance(&self, other: &Decimal, tolerance: &Decimal) -> (r: Option<Ordering>)
        requires
            self.wf(),
            other.wf(),
            tolerance.wf(),
        ensures
            r == if spec_eq_tolerance(*self, *other, *tolerance) {
                Some(Ordering::Equal)
            } else {
                spec_cmp(*self, *other)
            },
    {
        if self.eq_tolerance(other, tolerance) {
            Some(Ordering::Equal)
        } else {
            self.partial_cmp(other)
        }
    }

    /// Relative tolerance equality: whether `|self - other|` is at most
    /// `tolerance` times the larger magnitude of the two operands.
    pub fn eq_tolerance(&self, other: &Decimal, tolerance: &Decimal) -> (r: bool)
        requires
            self.wf(),
            other.wf(),
            tolerance.wf(),
        ensures
            r == spec_eq_tolerance(*self, *other, *tolerance),
    {
        proof {
            crate::arith::lemma_ops_wf(*self, *other);
        }
        let diff = (*self - *other).abs();
        let bound = *tolerance * self.abs().max(&other.abs());
        diff.le(&bound)
    }

    /// The negation of tolerance equality.
    pub fn neq_tolerance(&self, other: &Decimal, tolerance: &Decimal) -> (r: bool)
        requires
            self.wf(),
            other.wf(),
            tolerance.wf(),
        ensures
            r == !spec_eq_tolerance(*self, *other, *tolerance),
    {
        !self.eq_tolerance(other, tolerance)
    }

    /// Strictly less, and not within tolerance.
    pub fn lt_tolerance(&self, other: &Decimal, tolerance: &Decimal) -> (r: bool)
        requires
            self.wf(),
            other.wf(),
            tolerance.wf(),
        ensures
            r == (!spec_eq_tolerance(*self, *other, *tolerance) && spec_lt(*self, *other)),
    {
        !self.eq_tolerance(other, tolerance) && self.lt(other)
    }

    /// Within tolerance, or strictly less.
    pub fn le_tolerance(&self, other: &Decimal, tolerance: &Decimal) -> (r: bool)
        requires
            self.wf(),
            other.wf(),
            tolerance.wf(),
        ensures
            r == (spec_eq_tolerance(*self, *other, *tolerance) || spec_lt(*self, *other)),
    {
        self.eq_tolerance(other, tolerance) || self.lt(other)
    }

    /// Strictly greater, and not within tolerance.
    pub fn gt_tolerance(&self, other: &Decimal, tolerance: &Decimal) -> (r: bool)
        requires
            self.wf(),
            other.wf(),
            tolerance.wf(),
        ensures
            r == (!spec_eq_tolerance(*self, *other, *tolerance) && spec_gt(*self, *other)),
    {
        !self.eq_tolerance(other, tolerance) && self.gt(other)
    }

    /// Within tolerance, or strictly greater.
    pub fn ge_tolerance(&self, other: &Decimal, tolerance: &Decimal) -> (r: bool)
        requires
            self.wf(),
            other.wf(),
            tolerance.wf(),
        ensures
            r == (spec_eq_tolerance(*self, *other, *tolerance) || spec_gt(*self, *other)),
    {
        self.eq_tolerance(other, tolerance) || self.gt(other)
    }

    /// The sign of the value: `1` for positive, `-1` for negative, `0` for
    /// zero and for NaN.
    pub fn sign(&self) -> (r: i32)
        ensures
            r == if self.mantissa > 0 { 1int } else if self.mantissa < 0 { -1int } else { 0int },
    {
        if self.mantissa > 0 {
            1
        } else if self.mantissa < 0 {
            -1
        } else {
            0
        }
    }
}

} // verus!
