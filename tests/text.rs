use approx_round::Decimal;

fn parse(text: &str) -> Option<Decimal> {
    Decimal::parse(text.as_bytes())
}

#[test]
fn parse_plain_and_scientific_text() {
    let expected = Some(Decimal::new(100_123_456_789, -9));
    assert_eq!(parse("100.123456789"), expected);
    assert_eq!(parse("1.00123456789e2"), expected);
    assert_eq!(parse("100123456789e-9"), expected);
    assert_eq!(parse("-0.3"), Some(Decimal::new(-3, -1)));
    assert_eq!(parse("-3e-1"), Some(Decimal::new(-3, -1)));
    assert_eq!(parse("1200"), Some(Decimal::new(12, 2)));
    assert_eq!(parse("-0"), Some(Decimal::zero()));
    assert_eq!(parse("0.000"), Some(Decimal::zero()));
    assert_eq!(parse("5e-324"), Some(Decimal::new(5, -324)));
    assert_eq!(parse("1.7976931348623157e308"), Some(Decimal::new(17_976_931_348_623_157, 292)));
}

#[test]
fn parse_float_text() {
    for x in [100.123_456_789_f64, -0.1, 123.123_457, 2.5e-7] {
        let via_display = parse(&format!("{}", x));
        let via_exp = parse(&format!("{:e}", x));
        assert!(via_display.is_some());
        assert_eq!(via_display, via_exp);
    }
    assert_eq!(parse(&format!("{:e}", 100.456_7_f32)), Some(Decimal::new(1_004_567, -4)));
    // `{}` writes 1e300 with all 301 digits, more than a `u64` mantissa holds.
    assert_eq!(parse(&format!("{}", 1e300_f64)), None);
    assert_eq!(parse(&format!("{:e}", 1e300_f64)), Some(Decimal::new(1, 300)));
}

#[test]
fn parse_rejects_other_shapes() {
    for text in ["", "-", "NaN", "inf", "-inf", "1.", ".5", "1e", "1e-", "1e+3", "1.5e-3x", "+1", "1..2", " 1", "1 "] {
        assert_eq!(parse(text), None, "{}", text);
    }
}

#[test]
fn parse_rejects_what_does_not_fit() {
    assert_eq!(parse("18446744073709551615").unwrap().magnitude(), u64::MAX);
    assert_eq!(parse("18446744073709551616"), None);
    assert_eq!(parse("99999999999999999999"), None);
    assert_eq!(parse("1e9223372036854775807").unwrap().exponent(), i64::MAX);
    assert_eq!(parse("1e9223372036854775808"), None);
    assert_eq!(parse("1e-9223372036854775809"), None);
    assert_eq!(parse("1e99999999999999999999999999999999999999"), None);
    assert_eq!(parse("0e99999999999999999999999999999999999999"), Some(Decimal::zero()));
}
