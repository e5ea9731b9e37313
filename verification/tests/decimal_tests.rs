use rustorderbook::decimal::Decimal;

#[test]
fn parses_mantissa_and_scale() {
    let d = Decimal::parse("0.01000000").unwrap();
    assert_eq!(d.mantissa(), 1000000);
    assert_eq!(d.scale(), 8);
    let n = Decimal::parse("-1.5").unwrap();
    assert_eq!(n.mantissa, -15);
    assert_eq!(n.scale, 1);
}

#[test]
fn parse_error_carries_the_message() {
    let e = Decimal::parse("abc").unwrap_err();
    assert!(!e.is_empty());
    assert!(Decimal::parse("").is_err());
}

#[test]
fn displays_with_its_scale() {
    assert_eq!(Decimal::parse("0.01000000").unwrap().to_text(), "0.01000000");
    assert_eq!(Decimal::parse("-2.50").unwrap().to_text(), "-2.50");
    assert_eq!(Decimal::parse("42").unwrap().to_text(), "42");
}

#[test]
fn zero_of_any_scale_is_zero() {
    assert!(Decimal::parse("0.00000000").unwrap().is_zero());
    assert!(Decimal::parse("0").unwrap().is_zero());
    assert!(!Decimal::parse("0.00000001").unwrap().is_zero());
}

#[test]
fn equal_values_share_a_key() {
    let a = Decimal::parse("1.0").unwrap();
    let b = Decimal::parse("1.00").unwrap();
    assert_eq!(a.key(), b.key());
    assert_eq!(a.key(), (1, 0));
}

#[test]
fn keys_follow_the_order_of_values() {
    let values = ["-3.25", "-0.5", "0", "0.00000001", "0.5", "1.2", "10", "10.000000001"];
    for w in values.windows(2) {
        let lo = Decimal::parse(w[0]).unwrap().key();
        let hi = Decimal::parse(w[1]).unwrap().key();
        assert!(lo < hi, "{} should come before {}", w[0], w[1]);
    }
}

#[test]
fn key_parts_of_a_negative_value() {
    let d = Decimal::parse("-0.5").unwrap();
    assert_eq!(d.key(), (-1, 5_000_000_000_000_000_000_000_000_000));
    let e = Decimal::parse("-2").unwrap();
    assert_eq!(e.key(), (-2, 0));
    let f = Decimal::parse("12.345").unwrap();
    assert_eq!(f.key(), (12, 3_450_000_000_000_000_000_000_000_000));
}

#[test]
fn key_of_the_extreme_values() {
    let max = Decimal::parse("79228162514264337593543950335").unwrap();
    assert_eq!(max.key(), (79228162514264337593543950335, 0));
    let tiny = Decimal::parse("0.0000000000000000000000000001").unwrap();
    assert_eq!(tiny.scale(), 28);
    assert_eq!(tiny.key(), (0, 1));
    let min = Decimal::parse("-79228162514264337593543950335").unwrap();
    assert_eq!(min.key(), (-79228162514264337593543950335, 0));
}
