use std::time::Duration;
use unix_ts::Timestamp;

#[test]
fn timestamp_test_cmp() {
    assert!(Timestamp::from(1335020400) < Timestamp::from(1335024000));
    assert!(Timestamp::from(1335020400) == Timestamp::from(1335020400));
    assert!(Timestamp::new(1335020400, 500_000_000) < Timestamp::new(1335020400, 750_000_000));
    assert!(Timestamp::new(1, 999_999_999) < Timestamp::from(2));
}

#[test]
fn timestamp_test_seconds() {
    assert_eq!(Timestamp::from(1335020400).seconds(), 1335020400);
}

#[test]
fn timestamp_test_at_precision() {
    let ts = Timestamp::new(1335020400, 123456789);
    assert_eq!(ts.at_precision(3), 1335020400123);
    assert_eq!(ts.at_precision(6), 1335020400123456);
    assert_eq!(ts.at_precision(9), 1335020400123456789);
}

#[test]
fn timestamp_test_subsec() {
    let ts = Timestamp::new(1335020400, 123456789);
    assert_eq!(ts.subsec(3), 123);
    assert_eq!(ts.subsec(6), 123456);
    assert_eq!(ts.subsec(9), 123456789);
}

#[test]
fn timestamp_test_add() {
    let ts = Timestamp::from(1335020400) + Timestamp::new(86400, 1_000_000);
    assert_eq!(ts.seconds(), 1335020400 + 86400);
    assert_eq!(ts.subsec(3), 1);
}

#[test]
fn timestamp_test_sub() {
    let ts = Timestamp::from(1335020400) - Timestamp::new(86400, 0);
    assert_eq!(ts.seconds(), 1335020400 - 86400);
    assert_eq!(ts.nanos(), 0);
}

#[test]
fn timestamp_test_sub_nano_overflow() {
    let ts = Timestamp::from(1335020400) - Timestamp::new(0, 500_000_000);
    assert_eq!(ts.seconds(), 1335020399);
    assert_eq!(ts.subsec(1), 5);
}

#[test]
fn lib_test_cmp() {
    assert!(Timestamp::from(1335020400) < Timestamp::from(1335024000));
    assert!(Timestamp::from(1335020400) == Timestamp::from(1335020400));
    assert!(Timestamp::new(1335020400, 500_000_000) < Timestamp::new(1335020400, 750_000_000));
    assert!(Timestamp::new(1, 999_999_999) < Timestamp::from(2));
}

#[test]
fn test_from_nanos() {
    assert!(Timestamp::from_nanos(1335020400_000_000_000i128) == Timestamp::new(1335020400, 0));
    assert!(
        Timestamp::from_nanos(1335020400_500_000_000i128) == Timestamp::new(1335020400, 500_000_000)
    );
    // -1.75 s is two whole seconds back plus a quarter second.
    assert!(Timestamp::from_nanos(-1_750_000_000) == Timestamp::new(-2, 250_000_000));
}

#[test]
fn test_from_micros() {
    assert!(Timestamp::from_micros(1335020400_000_000i64) == Timestamp::new(1335020400, 0));
    assert!(
        Timestamp::from_micros(1335020400_500_000i64) == Timestamp::new(1335020400, 500_000_000)
    );
    assert!(Timestamp::from_micros(-1_750_000) == Timestamp::new(-2, 250_000_000));
}

#[test]
fn test_from_millis() {
    assert!(Timestamp::from_millis(1335020400_000i64) == Timestamp::new(1335020400, 0));
    assert!(Timestamp::from_millis(1335020400_500i64) == Timestamp::new(1335020400, 500_000_000));
    assert!(Timestamp::from_millis(-1_750) == Timestamp::new(-2, 250_000_000));
}

#[test]
fn lib_test_seconds() {
    assert_eq!(Timestamp::from(1335020400).seconds(), 1335020400);
}

#[test]
fn lib_test_at_precision() {
    let ts = Timestamp::new(1335020400, 123456789);
    assert_eq!(ts.at_precision(3), 1335020400123);
    assert_eq!(ts.at_precision(6), 1335020400123456);
    assert_eq!(ts.at_precision(9), 1335020400123456789);
}

#[test]
fn lib_test_subsec() {
    let ts = Timestamp::new(1335020400, 123456789);
    assert_eq!(ts.subsec(3), 123);
    assert_eq!(ts.subsec(6), 123456);
    assert_eq!(ts.subsec(9), 123456789);
}

#[test]
fn lib_test_add() {
    let ts = Timestamp::from(1335020400) + Duration::new(86400, 1_000_000);
    assert_eq!(ts.seconds(), 1335020400 + 86400);
    assert_eq!(ts.subsec(3), 1);
}

#[test]
fn lib_test_sub() {
    let ts = Timestamp::from(1335020400) - Duration::new(86400, 0);
    assert_eq!(ts.seconds(), 1335020400 - 86400);
    assert_eq!(ts.nanos(), 0);
}

#[test]
fn lib_test_sub_nano_overflow() {
    let ts = Timestamp::from(1335020400) - Duration::new(0, 500_000_000);
    assert_eq!(ts.seconds(), 1335020399);
    assert_eq!(ts.subsec(1), 5);
}

#[test]
fn test_nanos_overflow() {
    let t = Timestamp::new(1335020400, 1_500_000_000);
    assert_eq!(t.seconds(), 1335020401);
    assert_eq!(t.nanos(), 500_000_000);
}

#[test]
fn new_carries_several_seconds() {
    let t = Timestamp::new(-3, 4_294_967_295);
    assert_eq!(t.seconds(), 1);
    assert_eq!(t.nanos(), 294_967_295);
}

#[test]
fn new_wraps_past_the_largest_second() {
    let t = Timestamp::new(i64::MAX, 1_000_000_001);
    assert_eq!(t.seconds(), i64::MIN);
    assert_eq!(t.nanos(), 1);
}

#[test]
fn default_is_the_epoch() {
    assert_eq!(Timestamp::default(), Timestamp::new(0, 0));
}

#[test]
fn order_follows_time_across_the_epoch() {
    let quarter_before = Timestamp::new(-1, 750_000_000);
    let epoch = Timestamp::from(0);
    let half_before = Timestamp::new(-1, 500_000_000);
    assert!(half_before < quarter_before);
    assert!(quarter_before < epoch);
    assert!(epoch > half_before);
    assert!(quarter_before <= quarter_before);
}

#[test]
fn seconds_round_down_before_the_epoch() {
    let t = Timestamp::new(-1, 750_000_000);
    assert_eq!(t.seconds(), -1);
    assert_eq!(t.subsec(2), 75);
    assert_eq!(t.at_precision(3), -250);
    assert_eq!(t.at_precision(0), -1);
}

#[test]
fn at_precision_of_extreme_seconds() {
    assert_eq!(Timestamp::new(i64::MIN, 0).at_precision(9), i64::MIN as i128 * 1_000_000_000);
    assert_eq!(
        Timestamp::new(i64::MAX, 999_999_999).at_precision(9),
        i64::MAX as i128 * 1_000_000_000 + 999_999_999
    );
}

#[test]
fn from_nanos_exact_negative_second() {
    assert_eq!(Timestamp::from_nanos(-1_000_000_000), Timestamp::new(-1, 0));
    assert_eq!(Timestamp::from_nanos(-500_000_000), Timestamp::new(-1, 500_000_000));
    assert_eq!(Timestamp::from_nanos(-1), Timestamp::new(-1, 999_999_999));
}

#[test]
fn from_nanos_wraps_beyond_i64_seconds() {
    let beyond = (i64::MAX as i128 + 1) * 1_000_000_000 + 7;
    assert_eq!(Timestamp::from_nanos(beyond), Timestamp::new(i64::MIN, 7));
}

#[test]
fn millis_round_trip() {
    for t in [
        Timestamp::new(1335020400, 123_000_000),
        Timestamp::new(-5, 250_000_000),
        Timestamp::new(0, 0),
    ] {
        let millis = t.at_precision(3) as i64;
        assert_eq!(Timestamp::from_millis(millis), t);
    }
}

#[test]
fn micros_and_nanos_round_trip() {
    let t = Timestamp::new(-1335020400, 123_456_000);
    assert_eq!(Timestamp::from_micros(t.at_precision(6) as i64), t);
    let u = Timestamp::new(-1335020400, 123_456_789);
    assert_eq!(Timestamp::from_nanos(u.at_precision(9)), u);
}

#[test]
fn add_then_sub_gives_back() {
    let t = Timestamp::new(-10, 900_000_000);
    let d = Timestamp::new(3, 200_000_000);
    assert_eq!((t + d) - d, t);
    let span = Duration::new(7, 999_999_999);
    assert_eq!((t + span) - span, t);
    let top = Timestamp::new(i64::MAX, 999_999_999);
    let one = Timestamp::new(0, 1);
    assert_eq!(top + one, Timestamp::new(i64::MIN, 0));
    assert_eq!((top + one) - one, top);
}

#[test]
fn subtracting_a_later_timestamp_goes_negative() {
    let r = Timestamp::new(1, 250_000_000) - Timestamp::new(2, 500_000_000);
    assert_eq!(r, Timestamp::new(-2, 750_000_000));
    assert_eq!(r.at_precision(3), -1250);
}

#[test]
fn now_is_after_the_epoch() {
    let t = Timestamp::now().unwrap();
    assert!(t.seconds() > 1_500_000_000);
    assert!(t.subsec(9) < 1_000_000_000);
}

#[test]
fn epoch_span_fits_or_refuses() {
    assert_eq!(Timestamp::from_epoch_span(5, 7), Some(Timestamp::new(5, 7)));
    assert_eq!(
        Timestamp::from_epoch_span(i64::MAX as u64, 999_999_999),
        Some(Timestamp::new(i64::MAX, 999_999_999))
    );
    assert_eq!(Timestamp::from_epoch_span(i64::MAX as u64 + 1, 0), None);
}

#[test]
fn clock_reading_before_epoch_gives_none() {
    assert_eq!(Timestamp::from_elapsed_since_epoch(None), None);
    assert_eq!(
        Timestamp::from_elapsed_since_epoch(Some(Duration::new(1335020400, 500_000_000))),
        Some(Timestamp::new(1335020400, 500_000_000))
    );
    assert_eq!(Timestamp::from_elapsed_since_epoch(Some(Duration::new(u64::MAX, 0))), None);
}
