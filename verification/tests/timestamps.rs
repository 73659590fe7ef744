use chrono::{Datelike, NaiveDate, TimeDelta};
use log_stream_gc::date::{parse_timestamp, Date, TimestampError, EPOCH_DAY, MAX_DAY, MIN_DAY};

#[test]
fn parse_timestamp_valid() {
    // 2024-01-01T00:00:00Z = 1_704_067_200 seconds = 1_704_067_200_000 ms
    let dt = parse_timestamp(1_704_067_200_000).unwrap();
    assert_eq!(dt.timestamp(), 1_704_067_200);
    assert_eq!(dt.date_naive().to_string(), "2024-01-01");
}

#[test]
fn parse_timestamp_zero() {
    let dt = parse_timestamp(0).unwrap();
    assert_eq!(dt.timestamp(), 0);
}

#[test]
fn parse_timestamp_negative() {
    assert!(parse_timestamp(-1).is_err());
}

#[test]
fn parse_timestamp_preserves_millis() {
    let dt = parse_timestamp(1_704_067_200_123).unwrap();
    assert_eq!(dt.timestamp_subsec_millis(), 123);
}

#[test]
fn parse_timestamp_splits_at_midnight() {
    let before = parse_timestamp(1_704_067_199_999).unwrap();
    assert_eq!(before.timestamp(), 1_704_067_199);
    assert_eq!(before.timestamp_subsec_millis(), 999);
    assert_eq!(before.date_naive().to_string(), "2023-12-31");
    let epoch = parse_timestamp(0).unwrap();
    assert_eq!(epoch.date_naive().num_days_from_ce(), EPOCH_DAY);
}

#[test]
fn parse_timestamp_errors_tell_the_timestamp() {
    assert_eq!(parse_timestamp(-1), Err(TimestampError::Negative(-1)));
    assert_eq!(parse_timestamp(i64::MIN), Err(TimestampError::Negative(i64::MIN)));
    assert_eq!(parse_timestamp(i64::MAX), Err(TimestampError::OutOfRange(i64::MAX)));
    assert_eq!(TimestampError::Negative(-1).message(), "Invalid timestamp: -1");
    assert_eq!(
        TimestampError::OutOfRange(i64::MAX).message(),
        "Failed to parse timestamp: 9223372036854775807"
    );
}

#[test]
fn parse_timestamp_reaches_the_end_of_the_calendar() {
    let last: i64 = 8_210_266_876_799_999;
    let dt = parse_timestamp(last).unwrap();
    assert_eq!(dt.date_naive().num_days_from_ce(), MAX_DAY);
    assert_eq!(dt.date_naive().to_string(), "+262142-12-31");
    assert_eq!(parse_timestamp(last + 1), Err(TimestampError::OutOfRange(last + 1)));
}

#[test]
fn calendar_has_the_days_of_chrono() {
    assert_eq!(NaiveDate::MIN.num_days_from_ce(), MIN_DAY);
    assert_eq!(NaiveDate::MAX.num_days_from_ce(), MAX_DAY);
    assert!(Date::from_num_days_from_ce_opt(MIN_DAY).is_some());
    assert!(Date::from_num_days_from_ce_opt(MIN_DAY - 1).is_none());
    assert!(Date::from_num_days_from_ce_opt(MAX_DAY).is_some());
    assert!(Date::from_num_days_from_ce_opt(MAX_DAY + 1).is_none());
    assert_eq!(NaiveDate::from_num_days_from_ce_opt(MIN_DAY - 1), None);
    assert_eq!(NaiveDate::from_num_days_from_ce_opt(MAX_DAY + 1), None);
}

#[test]
fn spans_have_the_bounds_of_chrono() {
    let most: i64 = log_stream_gc::date::MAX_SPAN_DAYS;
    assert!(TimeDelta::try_days(most).is_some());
    assert!(TimeDelta::try_days(-most).is_some());
    assert!(TimeDelta::try_days(most + 1).is_none());
    assert!(TimeDelta::try_days(-most - 1).is_none());
}

#[test]
fn going_back_crosses_months_and_years() {
    let date = parse_timestamp(1_709_251_200_000).unwrap().date_naive();
    assert_eq!(date.to_string(), "2024-03-01");
    assert_eq!(date.back(1).to_string(), "2024-02-29");
    assert_eq!(date.back(61).to_string(), "2023-12-31");
    assert_eq!(date.back(-1).to_string(), "2024-03-02");
    assert_eq!(date.back(0), date);
}

#[test]
fn going_back_stops_at_the_ends_of_the_calendar() {
    let first = Date::from_num_days_from_ce_opt(MIN_DAY).unwrap();
    let last = Date::from_num_days_from_ce_opt(MAX_DAY).unwrap();
    assert!(first.can_go_back(0));
    assert!(!first.can_go_back(1));
    assert!(!last.can_go_back(-1));
    let all = MAX_DAY as i64 - MIN_DAY as i64;
    assert!(last.can_go_back(all));
    assert_eq!(last.back(all), first);
    assert_eq!(first.back(-all), last);
    assert!(!last.can_go_back(all + 1));
    assert!(!last.can_go_back(i64::MAX));
    assert!(!last.can_go_back(i64::MIN));
}

#[test]
fn dates_are_ordered() {
    let a = parse_timestamp(1_704_067_199_999).unwrap().date_naive();
    let b = parse_timestamp(1_704_067_200_000).unwrap().date_naive();
    assert!(a.is_before(&b));
    assert!(!b.is_before(&a));
    assert!(!b.is_before(&b));
}

#[test]
fn today_is_the_date_of_the_clock() {
    let before = chrono::Utc::now().date_naive().num_days_from_ce();
    let today = Date::today().num_days_from_ce();
    let after = chrono::Utc::now().date_naive().num_days_from_ce();
    assert!(before <= today && today <= after);
}
