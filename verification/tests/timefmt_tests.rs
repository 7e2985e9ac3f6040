use homepage_core::timefmt::{
    format_clock, format_timestamp, format_uptime, message_from_row, parse_uptime_secs,
    smart_timestamp_line, DateParts,
};

fn date(year: i32, month: u8, day: u8, hour: u8, minute: u8) -> DateParts {
    DateParts { year, month, day, hour, minute }
}

#[test]
fn clock_is_zero_padded() {
    assert_eq!(format_clock(9, 5), "09:05");
    assert_eq!(format_clock(23, 59), "23:59");
    assert_eq!(format_clock(0, 0), "00:00");
}

#[test]
fn same_day_says_today() {
    let today = date(2023, 4, 15, 18, 0);
    let msg = date(2023, 4, 15, 12, 30);
    assert_eq!(format_timestamp(msg, today), "Today, 12:30");
}

#[test]
fn previous_day_says_yesterday() {
    let today = date(2023, 4, 15, 18, 0);
    let msg = date(2023, 4, 14, 7, 5);
    assert_eq!(format_timestamp(msg, today), "Yesterday, 07:05");
}

#[test]
fn yesterday_across_month_and_leap_boundaries() {
    // The first of March looks back at the end of February.
    assert_eq!(format_timestamp(date(2023, 2, 28, 9, 0), date(2023, 3, 1, 1, 0)), "Yesterday, 09:00");
    assert_eq!(format_timestamp(date(2024, 2, 29, 9, 0), date(2024, 3, 1, 1, 0)), "Yesterday, 09:00");
    // In a leap year the 28th is not the day before the 1st of March.
    assert_eq!(format_timestamp(date(2024, 2, 28, 9, 0), date(2024, 3, 1, 1, 0)), "2024-02, 09:00");
    // New year's day looks back at the end of December.
    assert_eq!(format_timestamp(date(2022, 12, 31, 23, 58), date(2023, 1, 1, 0, 2)), "Yesterday, 23:58");
}

#[test]
fn older_messages_show_year_and_month() {
    let today = date(2023, 4, 15, 18, 0);
    assert_eq!(format_timestamp(date(2023, 4, 2, 12, 30), today), "2023-04, 12:30");
    assert_eq!(format_timestamp(date(2021, 11, 2, 4, 6), today), "2021-11, 04:06");
}

#[test]
fn rfc3339_timestamps_parse_to_millis() {
    let row = |ts: &str| message_from_row(1, "a".into(), "c".into(), ts, -1).timestamp_millis;
    assert_eq!(row("1970-01-01T00:00:00+00:00"), 0);
    assert_eq!(row("2023-01-01T00:00:00+00:00"), 1_672_531_200_000);
    assert_eq!(row("2023-01-01T01:00:00+01:00"), 1_672_531_200_000);
    assert_eq!(row("not a date"), -1);
}

#[test]
fn rows_fall_back_to_now_when_the_stored_text_is_broken() {
    let m = message_from_row(3, "a".to_string(), "c".to_string(), "2023-01-01T00:00:00+00:00", 99);
    assert_eq!(m.id, 3);
    assert_eq!(m.timestamp_millis, 1_672_531_200_000);
    let m = message_from_row(4, "a".to_string(), "c".to_string(), "garbage", 99);
    assert_eq!(m.timestamp_millis, 99);
}

#[test]
fn a_message_from_just_now_says_today() {
    // Whatever the local time zone, an instant is on the same local
    // calendar day as itself.
    let now = 1_672_531_200_000;
    let line = smart_timestamp_line(now, now);
    assert!(line.starts_with("Today, "), "unexpected line: {line}");
}

#[test]
fn uptime_seconds_parse_from_the_uptime_file_text() {
    assert_eq!(parse_uptime_secs("12345.67 8910.11"), 12345);
    assert_eq!(parse_uptime_secs("42 9"), 42);
    assert_eq!(parse_uptime_secs("broken"), 0);
    assert_eq!(parse_uptime_secs(""), 0);
}

#[test]
fn uptime_line_counts_days_hours_minutes() {
    // 1 day, 2 hours, 3 minutes and 4 seconds.
    let secs = 86400 + 2 * 3600 + 3 * 60 + 4;
    assert_eq!(format_uptime(secs), "⏱ Host Uptime: 1 days, 2 hours, 3 minutes");
    assert_eq!(format_uptime(0), "⏱ Host Uptime: 0 days, 0 hours, 0 minutes");
}
