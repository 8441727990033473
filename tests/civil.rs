use chrono::NaiveDate;
use chrono::NaiveDateTime;
use unix_ts::Timestamp;
use unix_ts::MAX_CIVIL_SECONDS;
use unix_ts::MIN_CIVIL_SECONDS;

#[test]
#[allow(deprecated)]
fn test_to_naive_datetime() {
    let t = Timestamp::from(1335020400);
    assert_eq!(t.to_naive_datetime(), NaiveDate::from_ymd(2012, 4, 21).and_hms(15, 00, 0));
}

#[test]
fn naive_datetime_keeps_the_offset() {
    let t = Timestamp::new(-1, 500_000_000);
    let expected = NaiveDate::from_ymd_opt(1969, 12, 31).unwrap().and_hms_nano_opt(23, 59, 59, 500_000_000).unwrap();
    assert_eq!(t.to_naive_datetime(), expected);
}

#[test]
#[allow(deprecated)]
fn civil_range_is_chronos_own() {
    let first = Timestamp::new(MIN_CIVIL_SECONDS, 0).to_naive_datetime();
    assert_eq!(first, NaiveDate::MIN.and_hms_opt(0, 0, 0).unwrap());
    let last = Timestamp::new(MAX_CIVIL_SECONDS, 999_999_999).to_naive_datetime();
    assert_eq!(last, NaiveDate::MAX.and_hms_nano_opt(23, 59, 59, 999_999_999).unwrap());
    assert!(NaiveDateTime::from_timestamp_opt(MIN_CIVIL_SECONDS - 1, 0).is_none());
    assert!(NaiveDateTime::from_timestamp_opt(MAX_CIVIL_SECONDS + 1, 0).is_none());
}
