use break_infinity::{from_mantissa_exponent_no_normalize, Decimal};

#[test]
fn decimal() {
    assert_eq!(Decimal::zero().to_string(), "0");
    assert_eq!(Decimal::nan().to_string(), "NaN");
    assert_eq!(Decimal::infinity().to_string(), "Infinity");
    assert_eq!(Decimal::neg_infinity().to_string(), "-Infinity");

    assert_eq!(Decimal::from(100i32).to_string(), "100");
    assert_eq!(Decimal::from(1000000000000i64).to_string(), "1000000000000");
    assert_eq!(
        from_mantissa_exponent_no_normalize(17900000000000000, 3).to_string(),
        "1790"
    );
    assert_eq!(
        from_mantissa_exponent_no_normalize(10000000000000000, 308).to_string(),
        "1.0000000000000000e+308"
    );
}

#[test]
fn ops() {
    let a = from_mantissa_exponent_no_normalize(32240000000000000, 54);
    let b = from_mantissa_exponent_no_normalize(12400000000000000, 53);
    let c = from_mantissa_exponent_no_normalize(31000000000000000, 52);

    assert_eq!(a + b, from_mantissa_exponent_no_normalize(33480000000000000, 54));
    assert_eq!(a - b, from_mantissa_exponent_no_normalize(31000000000000000, 54));
    assert_eq!(a * b, from_mantissa_exponent_no_normalize(39977600000000000, 107));
    assert_eq!(a / b, from_mantissa_exponent_no_normalize(26000000000000000, 1));

    assert_eq!(a + c, from_mantissa_exponent_no_normalize(32550000000000000, 54));
    assert_eq!(a - c, from_mantissa_exponent_no_normalize(31930000000000000, 54));
    assert_eq!(a * c, from_mantissa_exponent_no_normalize(99944000000000000, 106));
    assert_eq!(a / c, from_mantissa_exponent_no_normalize(10400000000000000, 2));

    assert_eq!(b + c, from_mantissa_exponent_no_normalize(15500000000000000, 53));
    assert_eq!(b - c, from_mantissa_exponent_no_normalize(93000000000000000, 52));
    assert_eq!(b * c, from_mantissa_exponent_no_normalize(38440000000000000, 105));
    assert_eq!(b / c, from_mantissa_exponent_no_normalize(40000000000000000, 0));

    assert_eq!(Decimal::one() + Decimal::zero(), Decimal::one());
}

#[test]
fn cmp() {
    let a = from_mantissa_exponent_no_normalize(32240000000000000, 54);
    let b = from_mantissa_exponent_no_normalize(12400000000000000, 53);
    let c = from_mantissa_exponent_no_normalize(31000000000000000, 52);
    let d = from_mantissa_exponent_no_normalize(32240000000000000, 54);

    assert_eq!(a == b, false);
    assert_eq!(a == d, true);
    assert_eq!(b == d, false);

    assert_eq!(a >= b, true);
    assert_eq!(a >= d, true);
    assert_eq!(b >= d, false);

    assert_eq!(a > b, true);
    assert_eq!(a > d, false);
    assert_eq!(b > d, false);

    assert_eq!(a <= b, false);
    assert_eq!(a <= d, true);
    assert_eq!(b <= d, true);

    assert_eq!(a < b, false);
    assert_eq!(a < d, false);
    assert_eq!(b < d, true);

    assert_eq!(a.max(&b), a);
    assert_eq!(a.max(&c), a);
    assert_eq!(b.max(&c), b);

    assert_eq!(a.min(&b), b);
    assert_eq!(a.min(&c), c);
    assert_eq!(b.min(&c), c);

    assert_eq!(a.clamp(&c, &b), b);
    assert_eq!(b.clamp(&c, &a), b);
    assert_eq!(c.clamp(&b, &b), b);
}

#[test]
fn neg_abs() {
    assert_eq!(
        -from_mantissa_exponent_no_normalize(45670000000000000, 2),
        from_mantissa_exponent_no_normalize(-45670000000000000, 2)
    );
    assert_eq!(
        -from_mantissa_exponent_no_normalize(12300000000000000, 48),
        from_mantissa_exponent_no_normalize(-12300000000000000, 48)
    );

    assert_eq!(
        from_mantissa_exponent_no_normalize(-45670000000000000, 2).abs(),
        from_mantissa_exponent_no_normalize(45670000000000000, 2)
    );
    assert_eq!(
        from_mantissa_exponent_no_normalize(-12300000000000000, 48).abs(),
        from_mantissa_exponent_no_normalize(12300000000000000, 48)
    );
}

#[test]
fn test_decimal() {
    assert_eq!(Decimal::zero().to_string(), "0");
    assert_eq!(Decimal::nan().to_string(), "NaN");
    assert_eq!(Decimal::infinity().to_string(), "Infinity");
    assert_eq!(Decimal::neg_infinity().to_string(), "-Infinity");

    assert_eq!(Decimal::from(100u8).to_string(), "100");
    assert_eq!(Decimal::from(1000000000000u64).to_string(), "1000000000000");
    assert_eq!(
        from_mantissa_exponent_no_normalize(10000000000000000, 308).to_string(),
        "1.0000000000000000e+308"
    );
}

#[test]
fn test_ops() {
    let a = from_mantissa_exponent_no_normalize(32240000000000000, 54);
    let b = from_mantissa_exponent_no_normalize(12400000000000000, 53);
    let c = from_mantissa_exponent_no_normalize(31000000000000000, 52);

    assert_eq!(a + b, from_mantissa_exponent_no_normalize(33480000000000000, 54));
    assert_eq!(a - b, from_mantissa_exponent_no_normalize(31000000000000000, 54));
    assert_eq!(a * b, from_mantissa_exponent_no_normalize(39977600000000000, 107));
    assert_eq!(a / b, from_mantissa_exponent_no_normalize(26000000000000000, 1));

    assert_eq!(a + c, from_mantissa_exponent_no_normalize(32550000000000000, 54));
    assert_eq!(a - c, from_mantissa_exponent_no_normalize(31930000000000000, 54));
    assert_eq!(a * c, from_mantissa_exponent_no_normalize(99944000000000000, 106));
    assert_eq!(a / c, from_mantissa_exponent_no_normalize(10400000000000000, 2));

    assert_eq!(b + c, from_mantissa_exponent_no_normalize(15500000000000000, 53));
    assert_eq!(b - c, from_mantissa_exponent_no_normalize(93000000000000000, 52));
    assert_eq!(b * c, from_mantissa_exponent_no_normalize(38440000000000000, 105));
    assert_eq!(b / c, from_mantissa_exponent_no_normalize(40000000000000000, 0));
}

#[test]
fn test_cmp() {
    let a = from_mantissa_exponent_no_normalize(32240000000000000, 54);
    let b = from_mantissa_exponent_no_normalize(12400000000000000, 53);
    let c = from_mantissa_exponent_no_normalize(31000000000000000, 52);
    let d = from_mantissa_exponent_no_normalize(32240000000000000, 54);

    assert_eq!(a == b, false);
    assert_eq!(a == d, true);
    assert_eq!(b == d, false);

    assert_eq!(a >= b, true);
    assert_eq!(a >= d, true);
    assert_eq!(b >= d, false);

    assert_eq!(a > b, true);
    assert_eq!(a > d, false);
    assert_eq!(b > d, false);

    assert_eq!(a <= b, false);
    assert_eq!(a <= d, true);
    assert_eq!(b <= d, true);

    assert_eq!(a < b, false);
    assert_eq!(a < d, false);
    assert_eq!(b < d, true);

    assert_eq!(a.max(&b), a);
    assert_eq!(a.max(&c), a);
    assert_eq!(b.max(&c), b);

    assert_eq!(a.min(&b), b);
    assert_eq!(a.min(&c), c);
    assert_eq!(b.min(&c), c);

    assert_eq!(a.clamp(&c, &b), b);
    assert_eq!(b.clamp(&c, &a), b);
    assert_eq!(c.clamp(&b, &b), b);
}

#[test]
fn test_neg_abs() {
    assert_eq!(
        -from_mantissa_exponent_no_normalize(45670000000000000, 2),
        from_mantissa_exponent_no_normalize(-45670000000000000, 2)
    );
    assert_eq!(
        -from_mantissa_exponent_no_normalize(12300000000000000, 48),
        from_mantissa_exponent_no_normalize(-12300000000000000, 48)
    );

    assert_eq!(
        from_mantissa_exponent_no_normalize(-45670000000000000, 2).abs(),
        from_mantissa_exponent_no_normalize(45670000000000000, 2)
    );
    assert_eq!(
        from_mantissa_exponent_no_normalize(-12300000000000000, 48).abs(),
        from_mantissa_exponent_no_normalize(12300000000000000, 48)
    );
}
