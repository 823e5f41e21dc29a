//! An extended-range decimal number type.
//!
//! A [`Decimal`] represents `mantissa * 10^exponent`, where the mantissa is
//! held in fixed point with sixteen fractional digits (scale `10^16`), so a
//! normalized nonzero mantissa is an integer whose magnitude lies in
//! `[10^16, 10^17)`: exactly seventeen significant decimal digits. The
//! exponent is a plain integer bounded by [`EXP_LIMIT`]. This reaches
//! magnitudes up to about `10^(9 * 10^15)` while every operation on the type
//! is exact integer arithmetic with one explicit, specified rounding step in
//! normalization.

use vstd::prelude::*;

pub mod arith;
pub mod base10;
pub mod cbrt;
pub mod cmp;
pub mod convert;
pub mod decimal;
pub mod format;
pub mod laws;
pub mod parse;
pub mod roots;
pub mod rounding;
pub mod series;

pub use decimal::{
    from_mantissa_exponent, from_mantissa_exponent_no_normalize, Decimal, NumberClass,
};
pub use format::pad_end;
pub use parse::ParseError;
pub use series::{
    afford_arithmetic_series, efficiency_of_purchase, sum_arithmetic_series, sum_geometric_with,
};

verus! {

/// The largest integer such that it and all smaller integers are exactly
/// representable within the seventeen-digit precision budget.
pub const MAX_SAFE_INTEGER: i64 = 9007199254740991;

/// The number of significant decimal digits a mantissa carries.
pub const MAX_SIGNIFICANT_DIGITS: u32 = 17;

/// Exponents are clamped to `[-EXP_LIMIT, EXP_LIMIT]`. A value whose exponent
/// reaches `EXP_LIMIT` is the signed-infinity sentinel; one whose exponent
/// would fall below `-EXP_LIMIT` collapses to zero.
pub const EXP_LIMIT: i64 = 9_000_000_000_000_000;

/// The smallest base-ten exponent a finite `f64` can carry.
pub const NUMBER_EXP_MIN: i64 = -324;

/// The largest base-ten exponent a finite `f64` can carry.
pub const NUMBER_EXP_MAX: i64 = 308;

/// The fixed-point scale of a mantissa: a stored mantissa `m` stands for the
/// real number `m / MANTISSA_SCALE`.
pub const MANTISSA_SCALE: i64 = 10_000_000_000_000_000;

} // verus!
