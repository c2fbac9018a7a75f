use org_cli::calendar::{Date, Time};
use org_cli::parser::{OrgTimestamp, TimestampType};

fn date(y: i32, m: u32, d: u32) -> Date {
    Date::from_ymd_opt(y, m, d).unwrap()
}

fn time(h: u32, m: u32) -> Time {
    Time::from_hm_opt(h, m).unwrap()
}

#[test]
fn test_parse_active_date_only() {
    let ts = OrgTimestamp::parse_active("<2026-03-06 Fri>").unwrap();
    assert_eq!(ts.timestamp_type, TimestampType::Active);
    assert_eq!(ts.date, date(2026, 3, 6));
    assert!(ts.time.is_none());
    assert!(ts.end_time.is_none());
    assert!(ts.repeater.is_none());
}

#[test]
fn test_parse_active_with_time() {
    let ts = OrgTimestamp::parse_active("<2026-03-06 Fri 10:00>").unwrap();
    assert_eq!(ts.date, date(2026, 3, 6));
    assert_eq!(ts.time, Some(time(10, 0)));
    assert!(ts.end_time.is_none());
}

#[test]
fn test_parse_active_with_time_range() {
    let ts = OrgTimestamp::parse_active("<2026-03-06 Fri 10:00-11:00>").unwrap();
    assert_eq!(ts.time, Some(time(10, 0)));
    assert_eq!(ts.end_time, Some(time(11, 0)));
}

#[test]
fn test_parse_active_with_repeater() {
    let ts = OrgTimestamp::parse_active("<2026-03-06 Fri .+1d>").unwrap();
    assert_eq!(ts.repeater, Some(".+1d".to_string()));
    assert!(ts.is_repeating());
}

#[test]
fn test_parse_active_with_range_repeater() {
    let ts = OrgTimestamp::parse_active("<2026-03-06 Fri .+1d/3d>").unwrap();
    assert_eq!(ts.repeater, Some(".+1d/3d".to_string()));
}

#[test]
fn test_parse_inactive() {
    let ts = OrgTimestamp::parse_inactive("[2026-03-05 Thu 10:00]").unwrap();
    assert_eq!(ts.timestamp_type, TimestampType::Inactive);
    assert_eq!(ts.date, date(2026, 3, 5));
    assert_eq!(ts.time, Some(time(10, 0)));
}

#[test]
fn test_parse_scheduled() {
    let ts = OrgTimestamp::parse_scheduled("SCHEDULED: <2026-03-06 Fri>").unwrap();
    assert_eq!(ts.timestamp_type, TimestampType::Scheduled);
    assert_eq!(ts.date, date(2026, 3, 6));
}

#[test]
fn test_parse_deadline() {
    let ts = OrgTimestamp::parse_deadline("DEADLINE: <2026-03-10 Tue>").unwrap();
    assert_eq!(ts.timestamp_type, TimestampType::Deadline);
    assert_eq!(ts.date, date(2026, 3, 10));
}

#[test]
fn test_parse_closed() {
    let ts = OrgTimestamp::parse_closed("CLOSED: [2026-03-05 Thu 10:00]").unwrap();
    assert_eq!(ts.timestamp_type, TimestampType::Closed);
    assert_eq!(ts.date, date(2026, 3, 5));
}

#[test]
fn test_datetime() {
    let ts = OrgTimestamp::parse_active("<2026-03-06 Fri 10:30>").unwrap();
    let dt = ts.datetime();
    assert_eq!(dt.date, date(2026, 3, 6));
    assert_eq!(dt.time, time(10, 30));
}

#[test]
fn test_datetime_no_time() {
    let ts = OrgTimestamp::parse_active("<2026-03-06 Fri>").unwrap();
    let dt = ts.datetime();
    assert_eq!(dt.time, time(0, 0));
}

#[test]
fn test_parse_invalid() {
    assert!(OrgTimestamp::parse_active("invalid").is_none());
    assert!(OrgTimestamp::parse_inactive("invalid").is_none());
    assert!(OrgTimestamp::parse_scheduled("invalid").is_none());
    assert!(OrgTimestamp::parse_deadline("invalid").is_none());
    assert!(OrgTimestamp::parse_closed("invalid").is_none());
}

#[test]
fn impossible_dates_and_times_are_rejected_or_dropped() {
    assert!(OrgTimestamp::parse_active("<2026-02-30 Mon>").is_none());
    let ts = OrgTimestamp::parse_active("<2026-03-06 Fri 25:00>").unwrap();
    assert!(ts.time.is_none());
}

#[test]
fn first_timestamp_in_text_is_taken() {
    let ts = OrgTimestamp::parse_active("see <2026-01-02 Fri> and <2026-05-06 Wed>").unwrap();
    assert_eq!(ts.date, date(2026, 1, 2));
}

#[test]
fn leap_day_exists_only_in_leap_years() {
    assert!(Date::from_ymd_opt(2024, 2, 29).is_some());
    assert!(Date::from_ymd_opt(2026, 2, 29).is_none());
    assert!(Date::from_ymd_opt(2000, 2, 29).is_some());
    assert!(Date::from_ymd_opt(1900, 2, 29).is_none());
}
