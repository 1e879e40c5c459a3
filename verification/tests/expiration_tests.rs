use oxide_paste::expiration::Expiration;

#[test]
fn parse_minutes() {
    assert_eq!(Expiration::from_str("30m"), Expiration::Minutes(30));
}

#[test]
fn parse_hours() {
    assert_eq!(Expiration::from_str("2h"), Expiration::Hours(2));
}

#[test]
fn parse_days() {
    assert_eq!(Expiration::from_str("7d"), Expiration::Days(7));
}

#[test]
fn parse_empty_is_never() {
    assert_eq!(Expiration::from_str(""), Expiration::Never);
}

#[test]
fn parse_never_literal() {
    assert_eq!(Expiration::from_str("never"), Expiration::Never);
}

#[test]
fn parse_single_char_is_never() {
    assert_eq!(Expiration::from_str("m"), Expiration::Never);
    assert_eq!(Expiration::from_str("5"), Expiration::Never);
}

#[test]
fn parse_unknown_unit_is_never() {
    assert_eq!(Expiration::from_str("30x"), Expiration::Never);
    assert_eq!(Expiration::from_str("30"), Expiration::Never);
}

#[test]
fn parse_bad_prefix_defaults_to_zero() {
    assert_eq!(Expiration::from_str("xm"), Expiration::Minutes(0));
    assert_eq!(Expiration::from_str("1 2h"), Expiration::Hours(0));
    assert_eq!(Expiration::from_str("-5d"), Expiration::Days(0));
}

#[test]
fn parse_overflowing_prefix_defaults_to_zero() {
    assert_eq!(
        Expiration::from_str("99999999999999999999m"),
        Expiration::Minutes(0)
    );
}

#[test]
fn parse_zero_magnitude() {
    assert_eq!(Expiration::from_str("0m"), Expiration::Minutes(0));
}

#[test]
fn thirty_minutes_to_absolute() {
    let now: i64 = 1_700_000_000;
    let exp = Expiration::from_str("30m");
    assert!(exp.check_fits(now));
    assert_eq!(exp.to_absolute(now), Some(now + 30 * 60));
}

#[test]
fn two_days_to_absolute() {
    let now: i64 = 1_700_000_000;
    let exp = Expiration::from_str("2d");
    assert!(exp.check_fits(now));
    assert_eq!(exp.to_absolute(now), Some(now + 2 * 86_400));
}

#[test]
fn never_has_no_absolute_expiry() {
    assert_eq!(Expiration::Never.to_absolute(12345), None);
}

#[test]
fn oversized_magnitude_does_not_fit() {
    let exp = Expiration::Days(i64::MAX / 2);
    assert!(!exp.check_fits(0));
}
