use break_infinity::{from_mantissa_exponent_no_normalize, pad_end, Decimal};

#[test]
fn pad_end_cases() {
    assert_eq!(pad_end(String::from("ab"), 5, "xy"), "abxyx");
    assert_eq!(pad_end(String::from("abc"), 2, "z"), "abc");
    assert_eq!(pad_end(String::from("a"), 3, ""), "a  ");
    assert_eq!(pad_end(String::from(""), 4, "ab"), "abab");
    assert_eq!(pad_end(String::from("x"), 1, "y"), "x");
}

#[test]
fn plain_rendering() {
    assert_eq!(from_mantissa_exponent_no_normalize(45670000000000000, 2).to_string(), "456.7");
    assert_eq!(from_mantissa_exponent_no_normalize(-45670000000000000, 2).to_string(), "-456.7");
    assert_eq!(from_mantissa_exponent_no_normalize(12300000000000000, -5).to_string(), "0.0000123");
    assert_eq!(from_mantissa_exponent_no_normalize(10000000000000000, 20).to_string(), "100000000000000000000");
    assert_eq!(from_mantissa_exponent_no_normalize(12345678901234567, 0).to_string(), "1.2345678901234567");
}

#[test]
fn exponential_rendering() {
    assert_eq!(Decimal::from(100i32).to_exponential(2), "1.00e+2");
    assert_eq!(Decimal::zero().to_exponential(2), "0.00e+0");
    assert_eq!(Decimal::zero().to_exponential(0), "0e+0");
    assert_eq!(Decimal::nan().to_exponential(3), "NaN");
    assert_eq!(Decimal::infinity().to_exponential(3), "Infinity");
    // Rounding is half away from zero.
    assert_eq!(
        from_mantissa_exponent_no_normalize(15550000000000000, 0).to_exponential(2),
        "1.56e+0"
    );
    assert_eq!(
        from_mantissa_exponent_no_normalize(-15550000000000000, -3).to_exponential(1),
        "-1.6e-3"
    );
    // More places than stored digits pad with zeros.
    assert_eq!(Decimal::from(5i32).to_exponential(18), "5.000000000000000000e+0");
    // A carry leaves the mantissa at ten, as the digit budget dictates.
    assert_eq!(
        from_mantissa_exponent_no_normalize(99990000000000000, 3).to_exponential(2),
        "10.00e+3"
    );
}

#[test]
fn fixed_rendering() {
    assert_eq!(Decimal::from(100i32).to_fixed(2), "100.00");
    assert_eq!(Decimal::from(100i32).to_fixed(0), "100");
    assert_eq!(Decimal::zero().to_fixed(3), "0.000");
    assert_eq!(from_mantissa_exponent_no_normalize(45670000000000000, 2).to_fixed(1), "456.7");
    assert_eq!(from_mantissa_exponent_no_normalize(45670000000000000, 2).to_fixed(0), "457");
    assert_eq!(from_mantissa_exponent_no_normalize(12300000000000000, -5).to_fixed(2), "0.00");
    assert_eq!(from_mantissa_exponent_no_normalize(12300000000000000, -5).to_fixed(7), "0.0000123");
    // At seventeen digits of exponent the digit string is padded out.
    assert_eq!(
        from_mantissa_exponent_no_normalize(32240000000000000, 54).to_fixed(1),
        "3224000000000000000000000000000000000000000000000000000.0"
    );
}

#[test]
fn precision_rendering() {
    assert_eq!(Decimal::from(100i32).to_precision(5), "100.00");
    assert_eq!(Decimal::from(100i32).to_precision(2), "1.0e+2");
    assert_eq!(
        from_mantissa_exponent_no_normalize(12300000000000000, -8).to_precision(3),
        "1.23e-8"
    );
}

#[test]
fn rendering_window_boundaries() {
    // Exponent twenty-one falls out of the plain window, twenty stays in.
    assert_eq!(
        from_mantissa_exponent_no_normalize(10000000000000000, 21).to_string(),
        "1.0000000000000000e+21"
    );
    assert_eq!(
        from_mantissa_exponent_no_normalize(10000000000000000, 20).to_string(),
        "100000000000000000000"
    );
    // Exponent minus seven falls out of the plain window, minus six stays in.
    assert_eq!(
        from_mantissa_exponent_no_normalize(12000000000000000, -7).to_string(),
        "1.2000000000000000e-7"
    );
    assert_eq!(
        from_mantissa_exponent_no_normalize(12000000000000000, -6).to_string(),
        "0.0000012"
    );
    // The sign stands before the padded digit string in huge fixed output.
    assert_eq!(
        from_mantissa_exponent_no_normalize(-32240000000000000, 18).to_fixed(0),
        "-3224000000000000000"
    );
}

#[test]
fn decimal_places() {
    assert_eq!(Decimal::from(100i32).dp(), Some(0));
    assert_eq!(from_mantissa_exponent_no_normalize(45670000000000000, 2).dp(), Some(1));
    assert_eq!(from_mantissa_exponent_no_normalize(12300000000000000, -5).dp(), Some(7));
    assert_eq!(Decimal::nan().dp(), None);
    assert_eq!(Decimal::zero().dp(), Some(0));
    assert_eq!(from_mantissa_exponent_no_normalize(32240000000000000, 54).dp(), Some(0));
}

#[test]
fn mantissa_rounding() {
    let a = from_mantissa_exponent_no_normalize(32240000000000000, 54);
    assert_eq!(a.mantissa_with_decimal_places(2), Some(32200000000000000));
    assert_eq!(a.mantissa_with_decimal_places(16), Some(32240000000000000));
    assert_eq!(Decimal::nan().mantissa_with_decimal_places(2), None);
    assert_eq!(Decimal::zero().mantissa_with_decimal_places(2), Some(0));
    let b = from_mantissa_exponent_no_normalize(15550000000000000, 7);
    assert_eq!(b.mantissa_with_decimal_places(2), Some(15600000000000000));
}

#[test]
fn accessor_round_trip() {
    let a = from_mantissa_exponent_no_normalize(32240000000000000, 54);
    assert_eq!(a.mantissa(), 32240000000000000);
    assert_eq!(a.exponent(), 54);
    assert!(!a.is_nan());
    assert!(Decimal::nan().is_nan());
}
