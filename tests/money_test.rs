use ledger_core::money::{format_cents, parse_cents, ParseCentsError};

#[test]
fn test_format_cents() {
    assert_eq!(format_cents(5000), "50.00");
    assert_eq!(format_cents(1234), "12.34");
    assert_eq!(format_cents(100), "1.00");
    assert_eq!(format_cents(1), "0.01");
    assert_eq!(format_cents(0), "0.00");
    assert_eq!(format_cents(-5000), "-50.00");
    assert_eq!(format_cents(-1), "-0.01");
}

#[test]
fn test_parse_cents() {
    assert_eq!(parse_cents("50.00"), Ok(5000));
    assert_eq!(parse_cents("50"), Ok(5000));
    assert_eq!(parse_cents("12.34"), Ok(1234));
    assert_eq!(parse_cents("12.5"), Ok(1250));
    assert_eq!(parse_cents("0.01"), Ok(1));
    assert_eq!(parse_cents(".50"), Ok(50));
    assert_eq!(parse_cents("-50.00"), Ok(-5000));
    assert_eq!(parse_cents("100.999"), Ok(10099));
}

#[test]
fn test_parse_cents_invalid() {
    assert!(parse_cents("abc").is_err());
    assert!(parse_cents("12.34.56").is_err());
}

#[test]
fn parse_truncates_instead_of_rounding() {
    assert_eq!(parse_cents("100.999"), Ok(10099));
    assert_eq!(parse_cents("0.129"), Ok(12));
    assert_eq!(parse_cents("7.0099"), Ok(700));
}

#[test]
fn parse_trims_white_space() {
    assert_eq!(parse_cents("  12.30\t"), Ok(1230));
    assert_eq!(parse_cents("\n-1.5 "), Ok(-150));
}

#[test]
fn parse_edge_forms() {
    assert_eq!(parse_cents("12."), Ok(1200));
    assert_eq!(parse_cents("."), Ok(0));
    assert_eq!(parse_cents("--5"), Err(ParseCentsError::InvalidFormat));
    assert_eq!(parse_cents("-+5"), Err(ParseCentsError::InvalidFormat));
    assert_eq!(parse_cents("1.-5"), Err(ParseCentsError::InvalidFormat));
    assert_eq!(parse_cents("1.99x"), Err(ParseCentsError::InvalidFormat));
    assert_eq!(parse_cents("-.5"), Ok(-50));
    assert_eq!(parse_cents(""), Err(ParseCentsError::InvalidFormat));
    assert_eq!(parse_cents("-"), Err(ParseCentsError::InvalidFormat));
    assert_eq!(parse_cents("+5"), Err(ParseCentsError::InvalidFormat));
    assert_eq!(parse_cents("1.2x"), Err(ParseCentsError::InvalidFormat));
    assert_eq!(parse_cents("1 000"), Err(ParseCentsError::InvalidFormat));
}

#[test]
fn parse_range_limits() {
    assert_eq!(parse_cents("92233720368547758.07"), Ok(i64::MAX));
    assert_eq!(parse_cents("-92233720368547758.08"), Ok(i64::MIN));
    assert_eq!(parse_cents("92233720368547758.08"), Err(ParseCentsError::InvalidFormat));
    assert_eq!(parse_cents("99999999999999999999999"), Err(ParseCentsError::InvalidFormat));
}

#[test]
fn format_then_parse_round_trips() {
    for c in [0i64, 1, -1, 99, 100, 12345, -987654, i64::MAX, i64::MIN] {
        assert_eq!(parse_cents(&format_cents(c)), Ok(c));
    }
    assert_eq!(format_cents(i64::MIN), "-92233720368547758.08");
}

#[test]
fn parse_trims_unicode_white_space() {
    assert_eq!(parse_cents("\u{00A0}3.25\u{3000}"), Ok(325));
    assert_eq!(parse_cents("\u{2003}-1\u{2029}"), Ok(-100));
    assert_eq!(parse_cents("\u{200B}1"), Err(ParseCentsError::InvalidFormat));
}

#[test]
fn canonical_text_survives_parse_then_format() {
    for s in ["0.00", "0.07", "-0.07", "12.30", "-987654.32", "92233720368547758.07", "-92233720368547758.08"] {
        assert_eq!(format_cents(parse_cents(s).unwrap()), s);
    }
    assert_eq!(parse_cents("1.999"), Ok(199));
    assert_eq!(parse_cents("0.019"), Ok(1));
}
