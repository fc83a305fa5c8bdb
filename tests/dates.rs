use job_hunter::dates::{parse_iso_date, parse_relative_date, NullableSqliteDateTime, SqliteDateTime};

fn midnight(y: i32, m: u32, d: u32) -> i64 {
    chrono::NaiveDate::from_ymd_opt(y, m, d)
        .unwrap()
        .and_hms_opt(0, 0, 0)
        .unwrap()
        .and_utc()
        .timestamp()
}

fn shown(day: Option<i64>) -> String {
    NullableSqliteDateTime(day).format("%Y-%m-%d")
}

#[test]
fn three_days_ago() {
    let now = SqliteDateTime(midnight(2024, 6, 10));
    let day = parse_relative_date("3 days ago", now);
    assert_eq!(day, Some(midnight(2024, 6, 7) / 86400));
    assert_eq!(shown(day), "2024-06-07");
}

#[test]
fn relative_units() {
    let now = SqliteDateTime(midnight(2024, 6, 10) + 30 * 60);
    assert_eq!(shown(parse_relative_date("2 weeks ago", now)), "2024-05-27");
    assert_eq!(shown(parse_relative_date("1 week ago", now)), "2024-06-03");
    assert_eq!(shown(parse_relative_date("1 hour ago", now)), "2024-06-09");
    assert_eq!(shown(parse_relative_date("20 minutes ago", now)), "2024-06-10");
    assert_eq!(shown(parse_relative_date("1 year ago", now)), "2023-06-10");
}

#[test]
fn relative_months_are_calendar_months() {
    let now = SqliteDateTime(midnight(2024, 3, 31));
    assert_eq!(shown(parse_relative_date("1 month ago", now)), "2024-02-29");
    assert_eq!(shown(parse_relative_date("2 months ago", now)), "2024-01-31");
}

#[test]
fn relative_same_day_and_case() {
    let now = SqliteDateTime(midnight(2024, 6, 10) + 3600);
    assert_eq!(shown(parse_relative_date("today", now)), "2024-06-10");
    assert_eq!(shown(parse_relative_date("  Just now ", now)), "2024-06-10");
    assert_eq!(shown(parse_relative_date("3 Days Ago", now)), "2024-06-07");
}

#[test]
fn relative_unknown_phrases() {
    let now = SqliteDateTime(midnight(2024, 6, 10));
    assert_eq!(parse_relative_date("yesterday", now), None);
    assert_eq!(parse_relative_date("3 fortnights ago", now), None);
    assert_eq!(parse_relative_date("days ago", now), None);
    assert_eq!(parse_relative_date("3 days", now), None);
    assert_eq!(parse_relative_date("", now), None);
    assert_eq!(NullableSqliteDateTime::from_relative("soon", now), NullableSqliteDateTime(None));
}

#[test]
fn relative_from_relative_keeps_the_day() {
    let now = SqliteDateTime(midnight(2024, 6, 10));
    assert_eq!(
        NullableSqliteDateTime::from_relative("3 days ago", now),
        NullableSqliteDateTime(Some(midnight(2024, 6, 7) / 86400))
    );
}

#[test]
fn iso_dates_in_utc() {
    let d = NullableSqliteDateTime::from_iso_str("2024-06-10T23:30:00-02:00");
    assert_eq!(d.format("%Y-%m-%d"), "2024-06-11");
    assert_eq!(parse_iso_date("2024-06-10T08:00:00Z"), Some(NullableSqliteDateTime(Some(midnight(2024, 6, 10) / 86400))));
    assert_eq!(parse_iso_date("June 10th"), None);
    assert_eq!(parse_iso_date(""), None);
}

#[test]
fn before_the_epoch() {
    let now = SqliteDateTime(midnight(1969, 12, 31) + 5);
    assert_eq!(now.date(), -1);
    assert_eq!(shown(Some(now.date())), "1969-12-31");
}

#[test]
fn timestamps_at_midnight() {
    let d = NullableSqliteDateTime(Some(19884));
    assert_eq!(d.timestamp(), Some(midnight(2024, 6, 10)));
    assert_eq!(NullableSqliteDateTime(None).timestamp(), None);
    assert_eq!(NullableSqliteDateTime(None).format("%Y"), "");
    assert_eq!(SqliteDateTime(midnight(2024, 6, 10) + 86399).date(), 19884);
}

#[test]
fn formats_by_pattern() {
    let d = NullableSqliteDateTime(Some(19884));
    assert_eq!(d.format("%d/%m/%Y"), "10/06/2024");
    assert_eq!(d.format("%B %-d"), "June 10");
}
