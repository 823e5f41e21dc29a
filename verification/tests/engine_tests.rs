use break_infinity::{
    afford_arithmetic_series, efficiency_of_purchase, from_mantissa_exponent,
    from_mantissa_exponent_no_normalize, sum_arithmetic_series, sum_geometric_with, Decimal,
    NumberClass,
};

#[test]
fn normalization_canonicalizes() {
    // A short raw mantissa is scaled up to seventeen digits.
    assert_eq!(
        from_mantissa_exponent(123, 5),
        from_mantissa_exponent_no_normalize(12300000000000000, -9)
    );
    // An overlong value rounds half away from zero at the seventeenth digit.
    assert_eq!(
        Decimal::from(123456789012345675u64),
        from_mantissa_exponent_no_normalize(12345678901234568, 17)
    );
    // Zero collapses to the canonical form whatever exponent is given.
    assert_eq!(from_mantissa_exponent(0, 999), Decimal::zero());
}

#[test]
fn normalization_is_idempotent() {
    let values = [
        from_mantissa_exponent(123, 5),
        from_mantissa_exponent(-987654321, -40),
        Decimal::zero(),
        Decimal::one(),
        Decimal::max_value(),
    ];
    for v in values {
        assert_eq!(v.normalize(), v);
        assert_eq!(v.normalize().normalize(), v.normalize());
    }
}

#[test]
fn saturation_policy() {
    // Exponents past the limit saturate to the signed-infinity sentinel.
    assert_eq!(
        from_mantissa_exponent(10000000000000000, i64::MAX),
        Decimal::infinity()
    );
    assert_eq!(
        from_mantissa_exponent(-10000000000000000, i64::MAX),
        Decimal::neg_infinity()
    );
    // Exponents below the negative limit collapse to zero.
    assert_eq!(from_mantissa_exponent(10000000000000000, i64::MIN), Decimal::zero());
}

#[test]
fn commutativity_scenarios() {
    let a = from_mantissa_exponent_no_normalize(32240000000000000, 54);
    let b = from_mantissa_exponent_no_normalize(12400000000000000, 33);
    assert_eq!(a + b, b + a);
    assert_eq!(a * b, b * a);
    let c = Decimal::from(-7i32);
    assert_eq!(a + c, c + a);
    assert_eq!(a * c, c * a);
}

#[test]
fn identity_scenarios() {
    let a = from_mantissa_exponent_no_normalize(32240000000000000, 54);
    assert_eq!(a + Decimal::zero(), a);
    assert_eq!(a * Decimal::one(), a);
    assert_eq!(a / a, Decimal::one());
    let n = Decimal::from(-7i32);
    assert_eq!(n + Decimal::zero(), n);
    assert_eq!(n * Decimal::one(), n);
    assert_eq!(n / n, Decimal::one());
}

#[test]
fn nan_propagates() {
    let a = Decimal::from(5i32);
    assert_eq!(a + Decimal::nan(), Decimal::nan());
    assert_eq!(Decimal::nan() * a, Decimal::nan());
    assert_eq!(a / Decimal::zero(), Decimal::nan());
    assert_eq!(Decimal::zero().recip(), Decimal::nan());
    assert_eq!(Decimal::from(-4i32).sqrt(), Decimal::nan());
}

#[test]
fn recip_and_div() {
    assert_eq!(
        Decimal::from(4i32).recip(),
        from_mantissa_exponent_no_normalize(25000000000000000, -1)
    );
    assert_eq!(Decimal::one().recip(), Decimal::one());
    assert_eq!(
        Decimal::from(1i32) / Decimal::from(3i32),
        from_mantissa_exponent_no_normalize(33333333333333333, -1)
    );
}

#[test]
fn rounding_to_integers() {
    let x = from_mantissa_exponent_no_normalize(15000000000000000, 0);
    assert_eq!(x.round(), Decimal::from(2i32));
    assert_eq!(x.trunc(), Decimal::one());
    assert_eq!(x.floor(), Decimal::one());
    assert_eq!(x.ceil(), Decimal::from(2i32));

    let y = from_mantissa_exponent_no_normalize(-15000000000000000, 0);
    assert_eq!(y.round(), Decimal::from(-2i32));
    assert_eq!(y.trunc(), Decimal::from(-1i32));
    assert_eq!(y.floor(), Decimal::from(-2i32));
    assert_eq!(y.ceil(), Decimal::from(-1i32));

    // Half rounds away from zero; magnitudes below one half round to zero.
    assert_eq!(from_mantissa_exponent_no_normalize(50000000000000000, -1).round(), Decimal::one());
    assert_eq!(from_mantissa_exponent_no_normalize(49000000000000000, -2).round(), Decimal::zero());

    // Tiny magnitudes floor to minus one and ceil to one by sign.
    let tiny = from_mantissa_exponent_no_normalize(12000000000000000, -5);
    assert_eq!(tiny.floor(), Decimal::zero());
    assert_eq!(tiny.ceil(), Decimal::one());
    assert_eq!((-tiny).floor(), Decimal::from(-1i32));
    assert_eq!((-tiny).ceil(), Decimal::zero());
}

#[test]
fn squares_and_roots() {
    assert_eq!(Decimal::from(3i32).sqr(), Decimal::from(9i32));
    assert_eq!(Decimal::from(2i32).cube(), Decimal::from(8i32));
    assert_eq!(Decimal::from(4i32).sqrt(), Decimal::from(2i32));
    assert_eq!(
        Decimal::from(2i32).sqrt(),
        from_mantissa_exponent_no_normalize(14142135623730950, 0)
    );
    // An odd exponent folds one extra digit into the radicand.
    assert_eq!(
        from_mantissa_exponent_no_normalize(10000000000000000, 1).sqrt(),
        from_mantissa_exponent_no_normalize(31622776601683793, 0)
    );
    assert_eq!(Decimal::from(100i32).sqrt(), Decimal::from(10i32));
}

#[test]
fn cube_roots() {
    assert_eq!(Decimal::from(8i32).cbrt(), Decimal::from(2i32));
    assert_eq!(Decimal::from(27i32).cbrt(), Decimal::from(3i32));
    assert_eq!(Decimal::from(-8i32).cbrt(), Decimal::from(-2i32));
    assert_eq!(
        Decimal::from(2i32).cbrt(),
        from_mantissa_exponent_no_normalize(12599210498948732, 0)
    );
    // An exponent of residue one folds one extra digit into the radicand.
    assert_eq!(
        from_mantissa_exponent_no_normalize(10000000000000000, 1).cbrt(),
        from_mantissa_exponent_no_normalize(21544346900318837, 0)
    );
    // A negative exponent rounds the new exponent toward minus infinity.
    assert_eq!(
        from_mantissa_exponent_no_normalize(10000000000000000, -1).cbrt(),
        from_mantissa_exponent_no_normalize(46415888336127789, -1)
    );
    assert_eq!(Decimal::nan().cbrt(), Decimal::nan());
    assert_eq!(Decimal::zero().cbrt(), Decimal::zero());
    // A large odd exponent is divided by three rounding down.
    assert_eq!(
        from_mantissa_exponent_no_normalize(10000000000000000, 100).cbrt(),
        from_mantissa_exponent_no_normalize(21544346900318837, 33)
    );
}

#[test]
fn sign_and_constants() {
    assert_eq!(Decimal::from(-3i32).sign(), -1);
    assert_eq!(Decimal::from(3i32).sign(), 1);
    assert_eq!(Decimal::zero().sign(), 0);
    assert_eq!(Decimal::negative_one(), Decimal::from(-1i32));
    assert_eq!(Decimal::pow10(5), from_mantissa_exponent_no_normalize(10000000000000000, 5));
    assert_eq!(Decimal::max_value(), Decimal::infinity());
    assert_eq!(Decimal::from(1i32).egg(), Decimal::from(10i32));
}

#[test]
fn tolerance_comparisons() {
    let a = Decimal::from(1000i32);
    let b = from_mantissa_exponent_no_normalize(10000000000010000, 3);
    let tol = from_mantissa_exponent_no_normalize(10000000000000000, -9);
    assert!(a.eq_tolerance(&b, &tol));
    assert!(!a.neq_tolerance(&b, &tol));
    assert_eq!(a.cmp_tolerance(&b, &tol), Some(std::cmp::Ordering::Equal));
    assert!(a.le_tolerance(&b, &tol));
    assert!(a.ge_tolerance(&b, &tol));
    assert!(!a.lt_tolerance(&b, &tol));

    let far = Decimal::from(2000i32);
    assert!(!a.eq_tolerance(&far, &tol));
    assert!(a.lt_tolerance(&far, &tol));
    assert!(far.gt_tolerance(&a, &tol));

    // Reflexivity at any non-negative tolerance, zero included.
    assert!(a.eq_tolerance(&a, &Decimal::zero()));
    assert!(a.eq_tolerance(&a, &tol));
}

#[test]
fn comparator_totality_scenarios() {
    let values = [
        Decimal::from(-2i32),
        Decimal::zero(),
        Decimal::from(3i32),
        from_mantissa_exponent_no_normalize(10000000000000000, -5),
    ];
    for x in values {
        for y in values {
            let lt = x < y;
            let eq = x == y;
            let gt = x > y;
            assert_eq!([lt, eq, gt].iter().filter(|v| **v).count(), 1);
        }
    }
    // NaN is unordered against everything.
    assert_eq!(Decimal::nan().partial_cmp(&Decimal::zero()), None);
}

#[test]
fn number_class_cases() {
    assert_eq!(Decimal::nan().to_number_class(), NumberClass::Nan);
    assert_eq!(
        from_mantissa_exponent(10000000000000000, 400).to_number_class(),
        NumberClass::PositiveInfinity
    );
    assert_eq!(
        from_mantissa_exponent(-10000000000000000, 400).to_number_class(),
        NumberClass::NegativeInfinity
    );
    assert_eq!(
        from_mantissa_exponent(10000000000000000, -400).to_number_class(),
        NumberClass::Underflow
    );
    assert_eq!(
        from_mantissa_exponent(10000000000000000, -324).to_number_class(),
        NumberClass::PositiveMinimum
    );
    assert_eq!(Decimal::from(5i32).to_number_class(), NumberClass::Computable);
}

#[test]
fn series_helpers() {
    // With six resources and prices 1, 2, 3, ... exactly three are affordable.
    assert_eq!(
        afford_arithmetic_series(
            &Decimal::from(6i32),
            &Decimal::from(1i32),
            &Decimal::from(1i32),
            &Decimal::zero(),
        ),
        Decimal::from(3i32)
    );
    // With ten resources and prices 10, 12, 14, ... only the first is.
    assert_eq!(
        afford_arithmetic_series(
            &Decimal::from(10i32),
            &Decimal::from(10i32),
            &Decimal::from(2i32),
            &Decimal::zero(),
        ),
        Decimal::from(1i32)
    );
    // Three units priced 1, 2, 3 cost six.
    assert_eq!(
        sum_arithmetic_series(
            &Decimal::from(3i32),
            &Decimal::from(1i32),
            &Decimal::from(1i32),
            &Decimal::zero(),
        ),
        Decimal::from(6i32)
    );
    // Three units priced 2, 5, 8 cost fifteen.
    assert_eq!(
        sum_arithmetic_series(
            &Decimal::from(3i32),
            &Decimal::from(2i32),
            &Decimal::from(3i32),
            &Decimal::zero(),
        ),
        Decimal::from(15i32)
    );
    // Three units priced 3, 6, 12 (ratio two, powers supplied) cost 21.
    assert_eq!(
        sum_geometric_with(
            &Decimal::one(),
            &Decimal::from(8i32),
            &Decimal::from(3i32),
            &Decimal::from(2i32),
        ),
        Decimal::from(21i32)
    );
    assert_eq!(
        efficiency_of_purchase(
            &Decimal::from(10i32),
            &Decimal::from(5i32),
            &Decimal::from(2i32),
        ),
        Decimal::one()
    );
}

#[test]
fn default_is_zero() {
    assert_eq!(Decimal::default(), Decimal::zero());
}

#[test]
fn integer_conversions() {
    assert_eq!(Decimal::from(0u8), Decimal::zero());
    assert_eq!(Decimal::from(-128i8), from_mantissa_exponent_no_normalize(-12800000000000000, 2));
    assert_eq!(Decimal::from(65535u16), from_mantissa_exponent_no_normalize(65535000000000000, 4));
    assert_eq!(
        Decimal::from(u128::MAX),
        from_mantissa_exponent_no_normalize(34028236692093846, 38)
    );
    assert_eq!(
        Decimal::from(i128::MIN),
        from_mantissa_exponent_no_normalize(-17014118346046923, 38)
    );
    assert_eq!(Decimal::from(42usize), Decimal::from(42i64));
    assert_eq!(Decimal::from(-42isize), Decimal::from(-42i32));
}
