use unix_ts::ts;
use unix_ts::ParseError;
use unix_ts::Timestamp;

#[test]
fn integer() {
    assert_eq!(ts("1335020400").unwrap(), Timestamp::new(1335020400, 0));
}

#[test]
fn decimal() {
    assert_eq!(ts("1335020400.50").unwrap(), Timestamp::new(1335020400, 500_000_000));
}

#[test]
fn negative() {
    let t = ts("-1000").unwrap();
    assert_eq!(t.seconds(), -1000);
}

#[test]
fn negative_with_nanos() {
    let t = ts("-10000.25").unwrap();
    assert_eq!(t.seconds(), -10001);
    assert_eq!(t.subsec(2), 25);
}

#[test]
fn negative_no_zero() {
    let t = ts("-.5").unwrap();
    assert_eq!(t.seconds(), -1);
    assert_eq!(t.subsec(1), 5);
}

#[test]
fn no_zero() {
    let t = ts(".5").unwrap();
    assert_eq!(t.seconds(), 0);
    assert_eq!(t.subsec(1), 5);
}

#[test]
fn whitespace_around_and_after_the_sign() {
    assert_eq!(ts("  - 5.5\t\n").unwrap(), Timestamp::new(-6, 500_000_000));
    assert_eq!(ts("\u{3000}7\u{a0}").unwrap(), Timestamp::new(7, 0));
}

#[test]
fn fraction_is_cut_to_nine_digits() {
    assert_eq!(ts("1.1234567899").unwrap(), Timestamp::new(1, 123_456_789));
    assert_eq!(ts("1.000000001").unwrap(), Timestamp::new(1, 1));
    assert_eq!(ts("1.").unwrap(), Timestamp::new(1, 0));
}

#[test]
fn negative_whole_fraction_needs_no_extra_second() {
    assert_eq!(ts("-5.0").unwrap(), Timestamp::new(-5, 0));
    assert_eq!(ts("-5.000").unwrap().seconds(), -5);
}

#[test]
fn negative_literal_subsec_is_not_negative() {
    let t = ts("-0.001").unwrap();
    assert_eq!(t, Timestamp::new(-1, 1_000_000));
    assert_eq!(t.subsec(3), 1);
}

#[test]
fn empty_input_is_refused() {
    assert_eq!(ts(""), Err(ParseError::Empty));
    assert_eq!(ts(" \t "), Err(ParseError::Empty));
}

#[test]
fn second_point_is_refused() {
    assert_eq!(ts("1.2.3"), Err(ParseError::MultiplePoints));
    assert_eq!(ts("-..5"), Err(ParseError::MultiplePoints));
}

#[test]
fn stray_characters_are_refused() {
    assert_eq!(ts("12a"), Err(ParseError::InvalidDigit));
    assert_eq!(ts("1.5x"), Err(ParseError::InvalidDigit));
    assert_eq!(ts("-"), Err(ParseError::InvalidDigit));
    assert_eq!(ts("--5"), Err(ParseError::InvalidDigit));
    assert_eq!(ts("+5"), Err(ParseError::InvalidDigit));
    assert_eq!(ts("1 2"), Err(ParseError::InvalidDigit));
}

#[test]
fn seconds_outside_i64_are_refused() {
    assert_eq!(ts("9223372036854775807").unwrap().seconds(), i64::MAX);
    assert_eq!(ts("9223372036854775808"), Err(ParseError::OutOfRange));
    assert_eq!(ts("-9223372036854775808").unwrap().seconds(), i64::MIN);
    assert_eq!(ts("-9223372036854775808.5"), Err(ParseError::OutOfRange));
    assert_eq!(ts("-9223372036854775807.5").unwrap(), Timestamp::new(i64::MIN, 500_000_000));
    assert_eq!(ts("123456789012345678901234567890"), Err(ParseError::OutOfRange));
}
