use depthbook::common::{Level, ParseDecimalError, Price, Qty};
use depthbook::decimal::{parse_fixed, push_fixed, render_fixed, FRACTION_DIGITS, UNIT};

#[test]
fn unit_is_ten_to_the_eighth() {
    assert_eq!(FRACTION_DIGITS, 8);
    assert_eq!(UNIT, 100_000_000);
    assert_eq!(parse_fixed("1"), Some(UNIT));
}

#[test]
fn decimal_texts() {
    assert_eq!(parse_fixed("0.01"), Some(1_000_000));
    assert_eq!(parse_fixed("0.01000000"), Some(1_000_000));
    assert_eq!(parse_fixed("67123.40"), Some(6_712_340_000_000));
    assert_eq!(parse_fixed("9.99"), Some(999_000_000));
    assert_eq!(parse_fixed("0"), Some(0));
    assert_eq!(parse_fixed("000012"), Some(12 * UNIT));
    assert_eq!(parse_fixed("12."), Some(12 * UNIT));
    assert_eq!(parse_fixed(".5"), Some(50_000_000));
    assert_eq!(parse_fixed("0.00000001"), Some(1));
    assert_eq!(parse_fixed("0.12345678"), Some(12_345_678));
}

#[test]
fn signs() {
    assert_eq!(parse_fixed("-1.5"), Some(-150_000_000));
    assert_eq!(parse_fixed("+1.5"), Some(150_000_000));
    assert_eq!(parse_fixed("-0"), Some(0));
    assert_eq!(parse_fixed("-"), None);
    assert_eq!(parse_fixed("+"), None);
    assert_eq!(parse_fixed("--1"), None);
    assert_eq!(parse_fixed("1-"), None);
}

#[test]
fn places_beyond_the_eighth_are_cut() {
    assert_eq!(parse_fixed("0.123456789"), Some(12_345_678));
    assert_eq!(parse_fixed("0.000000019"), Some(1));
    assert_eq!(parse_fixed("-0.000000019"), Some(-1));
    assert_eq!(parse_fixed("0.0000000099999"), Some(0));
    assert_eq!(parse_fixed("1.00000000x"), None);
    assert_eq!(parse_fixed("1.000000000000x"), None);
}

#[test]
fn ill_formed_texts() {
    assert_eq!(parse_fixed(""), None);
    assert_eq!(parse_fixed("."), None);
    assert_eq!(parse_fixed("1.2.3"), None);
    assert_eq!(parse_fixed("1e5"), None);
    assert_eq!(parse_fixed("inf"), None);
    assert_eq!(parse_fixed("NaN"), None);
    assert_eq!(parse_fixed(" 1"), None);
    assert_eq!(parse_fixed("1 "), None);
    assert_eq!(parse_fixed("1,5"), None);
    assert_eq!(parse_fixed("١٢"), None);
    assert_eq!(parse_fixed("1é"), None);
}

#[test]
fn range_of_sixty_four_bits() {
    assert_eq!(parse_fixed("92233720368.54775807"), Some(i64::MAX));
    assert_eq!(parse_fixed("92233720368.54775808"), None);
    assert_eq!(parse_fixed("-92233720368.54775808"), Some(i64::MIN));
    assert_eq!(parse_fixed("-92233720368.54775809"), None);
    assert_eq!(parse_fixed("92233720369"), None);
    assert_eq!(parse_fixed("100000000000"), None);
    assert_eq!(parse_fixed("99999999999999999999999999999999999999999999999999"), None);
    assert_eq!(
        parse_fixed("00000000000000000000000000000000000000000000000092233720368.5"),
        Some(9_223_372_036_850_000_000)
    );
}

#[test]
fn prices_and_quantities_from_text() {
    assert_eq!(Price::from_str("10.5"), Ok(Price::new(1_050_000_000)));
    assert_eq!(Price::from_str("ten"), Err(ParseDecimalError));
    assert_eq!(Qty::from_str("0.001"), Ok(Qty::new(100_000)));
    assert_eq!(Qty::from_str(""), Err(ParseDecimalError));
    assert_eq!(
        Level::from_str_pair(&("10.5".to_string(), "0.001".to_string())),
        Some(Level::new(Price::new(1_050_000_000), Qty::new(100_000)))
    );
    assert_eq!(Level::from_str_pair(&("10.5".to_string(), "x".to_string())), None);
    assert_eq!(Level::from_str_pair(&("x".to_string(), "1".to_string())), None);
    assert_eq!(Price::default(), Price::new(0));
    assert_eq!(Qty::default(), Qty::new(0));
    assert_eq!(Level::default(), Level::new(Price::new(0), Qty::new(0)));
}

#[test]
fn values_as_text() {
    assert_eq!(render_fixed(0), "0.00000000");
    assert_eq!(render_fixed(1), "0.00000001");
    assert_eq!(render_fixed(-1), "-0.00000001");
    assert_eq!(render_fixed(999_000_000), "9.99000000");
    assert_eq!(render_fixed(6_712_340_000_000), "67123.40000000");
    assert_eq!(render_fixed(-150_000_000), "-1.50000000");
    assert_eq!(render_fixed(i64::MAX), "92233720368.54775807");
    assert_eq!(render_fixed(i64::MIN), "-92233720368.54775808");
    let mut out = String::from("x=");
    push_fixed(&mut out, 12 * UNIT);
    assert_eq!(out, "x=12.00000000");
}

#[test]
fn text_reads_back() {
    for v in [0, 1, -1, 10, 99_999_999, 100_000_000, -100_000_001, 123_456_789_012, i64::MAX, i64::MIN] {
        assert_eq!(parse_fixed(&render_fixed(v)), Some(v));
    }
}
