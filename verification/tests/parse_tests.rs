use break_infinity::{from_mantissa_exponent_no_normalize, Decimal, ParseError};

#[test]
fn parse_plain_literals() {
    assert_eq!(Decimal::from_str("123"), Ok(Decimal::from(123i32)));
    assert_eq!(
        Decimal::from_str("1.5"),
        Ok(from_mantissa_exponent_no_normalize(15000000000000000, 0))
    );
    assert_eq!(Decimal::from_str("-2.5"), Ok(from_mantissa_exponent_no_normalize(-25000000000000000, 0)));
    assert_eq!(Decimal::from_str("+42"), Ok(Decimal::from(42i32)));
    assert_eq!(Decimal::from_str("0"), Ok(Decimal::zero()));
    assert_eq!(Decimal::from_str("0.0625"), Ok(from_mantissa_exponent_no_normalize(62500000000000000, -2)));
    assert_eq!(Decimal::from_str(".5"), Ok(from_mantissa_exponent_no_normalize(50000000000000000, -1)));
    assert_eq!(Decimal::from_str("7."), Ok(Decimal::from(7i32)));
}

#[test]
fn parse_scientific_literals() {
    assert_eq!(
        Decimal::from_str("1.5e3"),
        Ok(from_mantissa_exponent_no_normalize(15000000000000000, 3))
    );
    assert_eq!(
        Decimal::from_str("-2.5e-3"),
        Ok(from_mantissa_exponent_no_normalize(-25000000000000000, -3))
    );
    assert_eq!(
        Decimal::from_str("3.224e54"),
        Ok(from_mantissa_exponent_no_normalize(32240000000000000, 54))
    );
    assert_eq!(Decimal::from_str("1e+9"), Ok(from_mantissa_exponent_no_normalize(10000000000000000, 9)));
}

#[test]
fn parse_nan_and_saturation() {
    assert_eq!(Decimal::from_str("NaN"), Ok(Decimal::nan()));
    // An exponent past the representable range saturates to infinity.
    let huge = Decimal::from_str("1e99999999999999999999").unwrap();
    assert_eq!(huge, Decimal::infinity());
    assert_eq!(huge.to_string(), "Infinity");
    let tiny = Decimal::from_str("1e-99999999999999999999").unwrap();
    assert_eq!(tiny, Decimal::zero());
}

#[test]
fn parse_long_mantissas() {
    // Digits beyond the seventeenth round half away from zero.
    assert_eq!(
        Decimal::from_str("123456789012345675"),
        Ok(from_mantissa_exponent_no_normalize(12345678901234568, 17))
    );
    assert_eq!(
        Decimal::from_str("0.00123456789012345644"),
        Ok(from_mantissa_exponent_no_normalize(12345678901234564, -3))
    );
}

#[test]
fn parse_errors() {
    assert_eq!(Decimal::from_str(""), Err(ParseError));
    assert_eq!(Decimal::from_str("abc"), Err(ParseError));
    assert_eq!(Decimal::from_str("1.2.3"), Err(ParseError));
    assert_eq!(Decimal::from_str("1e"), Err(ParseError));
    assert_eq!(Decimal::from_str("1e2.5"), Err(ParseError));
    assert_eq!(Decimal::from_str("e5"), Err(ParseError));
    assert_eq!(Decimal::from_str("."), Err(ParseError));
    assert_eq!(Decimal::from_str("-"), Err(ParseError));
    assert_eq!(Decimal::from_str("1 2"), Err(ParseError));
}
