//! Closed-form series and affordability helpers, composed purely from the
//! arithmetic engine.

use vstd::prelude::*;

use crate::arith::{spec_add, spec_div, spec_mul, spec_neg, spec_sub};
use crate::decimal::{spec_one, Decimal};
use crate::rounding::spec_floor;
use crate::roots::spec_sqrt;

verus! {

/// The price of the next unit under an additive progression: the starting
/// price plus one increment per unit already owned.
pub open spec fn spec_arith_actual_start(
    price_start: Decimal,
    price_add: Decimal,
    current_owned: Decimal,
) -> Decimal {
    spec_add(price_start, spec_mul(current_owned, price_add))
}

/// How many units of an additively priced item the available resources
/// afford: `floor((-b + sqrt(b^2 + 2 * price_add * resources)) / price_add)`,
/// the positive root of the arithmetic-series sum, rounded down.
pub fn afford_arithmetic_series(
    resources_available: &Decimal,
    price_start: &Decimal,
    price_add: &Decimal,
    current_owned: &Decimal,
) -> (r: Decimal)
    requires
        resources_available.wf(),
        price_start.wf(),
        price_add.wf(),
        current_owned.wf(),
    ensures
        ({
            let actual_start = spec_arith_actual_start(*price_start, *price_add, *current_owned);
            let b = spec_sub(actual_start, spec_div(*price_add, spec_from_two()));
            let b2 = spec_mul(b, b);
            r == spec_floor(
                spec_div(
                    spec_add(
                        spec_neg(b),
                        spec_sqrt(
                            spec_add(
                                b2,
                                spec_mul(
                                    spec_mul(*price_add, *resources_available),
                                    spec_from_two(),
                                ),
                            ),
                        ),
                    ),
                    *price_add,
                ),
            )
        }),
        r.wf(),
{
    proof {
        lemma_series_wf(*resources_available, *price_start, *price_add, *current_owned);
    }
    let two: Decimal = Decimal { mantissa: 20000000000000000, exponent: 0, nan: false };
    let actual_start: Decimal = *price_start + (*current_owned * *price_add);
    let b: Decimal = actual_start - (*price_add / two);
    let b2: Decimal = b.sqr();
    proof {
        crate::arith::lemma_ops_wf(b, b);
        crate::arith::lemma_ops_wf(*price_add, *resources_available);
        crate::arith::lemma_ops_wf(
            spec_mul(*price_add, *resources_available),
            spec_from_two(),
        );
        crate::arith::lemma_ops_wf(
            b2,
            spec_mul(spec_mul(*price_add, *resources_available), spec_from_two()),
        );
        crate::roots::lemma_sqrt_wf(
            spec_add(b2, spec_mul(spec_mul(*price_add, *resources_available), spec_from_two())),
        );
        crate::arith::lemma_ops_wf(
            spec_neg(b),
            spec_sqrt(
                spec_add(b2, spec_mul(spec_mul(*price_add, *resources_available), spec_from_two())),
            ),
        );
        crate::arith::lemma_ops_wf(
            spec_add(
                spec_neg(b),
                spec_sqrt(
                    spec_add(
                        b2,
                        spec_mul(spec_mul(*price_add, *resources_available), spec_from_two()),
                    ),
                ),
            ),
            *price_add,
        );
    }
    let root: Decimal = (b2 + ((*price_add * *resources_available) * two)).sqrt();
    ((neg_of(b) + root) / *price_add).floor()
}

/// The total cost of `num_items` more units under an additive progression:
/// `(n / 2) * (2 * actual_start + (n - 1) * price_add)`, the arithmetic
/// series sum.
pub fn sum_arithmetic_series(
    num_items: &Decimal,
    price_start: &Decimal,
    price_add: &Decimal,
    current_owned: &Decimal,
) -> (r: Decimal)
    requires
        num_items.wf(),
        price_start.wf(),
        price_add.wf(),
        current_owned.wf(),
    ensures
        ({
            let actual_start = spec_arith_actual_start(*price_start, *price_add, *current_owned);
            r == spec_mul(
                spec_div(*num_items, spec_from_two()),
                spec_add(
                    spec_mul(actual_start, spec_from_two()),
                    spec_mul(spec_sub(*num_items, spec_one()), *price_add),
                ),
            )
        }),
        r.wf(),
{
    proof {
        lemma_series_wf(*num_items, *price_start, *price_add, *current_owned);
    }
    let two: Decimal = Decimal { mantissa: 20000000000000000, exponent: 0, nan: false };
    let actual_start: Decimal = *price_start + (*current_owned * *price_add);
    proof {
        crate::arith::lemma_ops_wf(actual_start, two);
        crate::arith::lemma_ops_wf(*num_items, spec_one());
        crate::arith::lemma_ops_wf(spec_sub(*num_items, spec_one()), *price_add);
        crate::arith::lemma_ops_wf(
            spec_mul(actual_start, spec_from_two()),
            spec_mul(spec_sub(*num_items, spec_one()), *price_add),
        );
        crate::arith::lemma_ops_wf(*num_items, two);
        crate::arith::lemma_ops_wf(
            spec_div(*num_items, spec_from_two()),
            spec_add(
                spec_mul(actual_start, spec_from_two()),
                spec_mul(spec_sub(*num_items, spec_one()), *price_add),
            ),
        );
    }
    *num_items / two * (actual_start * two + (*num_items - Decimal::one()) * *price_add)
}

/// The total cost of more units under a geometric progression, given the
/// two powers of the ratio that only the caller can supply: `pow_owned` is
/// the ratio raised to the units already owned, `pow_items` the ratio raised
/// to the units to buy. The cost is
/// `price_start * pow_owned * (1 - pow_items) / (1 - price_ratio)`.
pub fn sum_geometric_with(
    pow_owned: &Decimal,
    pow_items: &Decimal,
    price_start: &Decimal,
    price_ratio: &Decimal,
) -> (r: Decimal)
    requires
        pow_owned.wf(),
        pow_items.wf(),
        price_start.wf(),
        price_ratio.wf(),
    ensures
        r == spec_div(
            spec_mul(
                spec_mul(*price_start, *pow_owned),
                spec_sub(spec_one(), *pow_items),
            ),
            spec_sub(spec_one(), *price_ratio),
        ),
        r.wf(),
{
    proof {
        crate::arith::lemma_ops_wf(*price_start, *pow_owned);
        crate::arith::lemma_ops_wf(Decimal { mantissa: crate::MANTISSA_SCALE, exponent: 0, nan: false }, *pow_items);
        crate::arith::lemma_ops_wf(
            spec_mul(*price_start, *pow_owned),
            spec_sub(spec_one(), *pow_items),
        );
        crate::arith::lemma_ops_wf(
            Decimal { mantissa: crate::MANTISSA_SCALE, exponent: 0, nan: false },
            *price_ratio,
        );
        crate::arith::lemma_ops_wf(
            spec_mul(spec_mul(*price_start, *pow_owned), spec_sub(spec_one(), *pow_items)),
            spec_sub(spec_one(), *price_ratio),
        );
    }
    *price_start * *pow_owned * (Decimal::one() - *pow_items) / (Decimal::one() - *price_ratio)
}

/// The efficiency score of a purchase: its cost over the rate improvement
/// it buys, counting the time to earn the cost back. Lower is better.
pub fn efficiency_of_purchase(
    cost: &Decimal,
    current_rp_s: &Decimal,
    delta_rp_s: &Decimal,
) -> (r: Decimal)
    requires
        cost.wf(),
        current_rp_s.wf(),
        delta_rp_s.wf(),
    ensures
        r == spec_div(*cost, spec_add(*current_rp_s, spec_div(*cost, *delta_rp_s))),
        r.wf(),
{
    proof {
        crate::arith::lemma_ops_wf(*cost, *delta_rp_s);
        crate::arith::lemma_ops_wf(*current_rp_s, spec_div(*cost, *delta_rp_s));
        crate::arith::lemma_ops_wf(
            *cost,
            spec_add(*current_rp_s, spec_div(*cost, *delta_rp_s)),
        );
    }
    *cost / (*current_rp_s + (*cost / *delta_rp_s))
}

/// The decimal two, the constant the closed forms scale by.
pub open spec fn spec_from_two() -> Decimal {
    Decimal { mantissa: 20000000000000000, exponent: 0, nan: false }
}

/// The negation, as a plain call for use amid operator chains.
fn neg_of(a: Decimal) -> (r: Decimal)
    requires
        a.wf(),
    ensures
        r == spec_neg(a),
        r.wf(),
{
    if a.nan {
        Decimal::nan()
    } else {
        Decimal { mantissa: -a.mantissa, exponent: a.exponent, nan: false }
    }
}

/// The operands every series helper builds along the way stay well formed.
proof fn lemma_series_wf(w: Decimal, x: Decimal, y: Decimal, z: Decimal)
    requires
        w.wf(),
        x.wf(),
        y.wf(),
        z.wf(),
    ensures
        spec_from_two().wf(),
        spec_mul(z, y).wf(),
        spec_add(x, spec_mul(z, y)).wf(),
        spec_sub(spec_add(x, spec_mul(z, y)), spec_div(y, spec_from_two())).wf(),
        spec_mul(
            spec_sub(spec_add(x, spec_mul(z, y)), spec_div(y, spec_from_two())),
            spec_sub(spec_add(x, spec_mul(z, y)), spec_div(y, spec_from_two())),
        ).wf(),
        spec_div(y, spec_from_two()).wf(),
{
    crate::arith::lemma_ops_wf(z, y);
    crate::arith::lemma_ops_wf(x, spec_mul(z, y));
    crate::arith::lemma_ops_wf(y, spec_from_two());
    crate::arith::lemma_ops_wf(spec_add(x, spec_mul(z, y)), spec_div(y, spec_from_two()));
    let b = spec_sub(spec_add(x, spec_mul(z, y)), spec_div(y, spec_from_two()));
    crate::arith::lemma_ops_wf(b, b);
}

} // verus!
