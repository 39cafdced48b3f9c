use ttrk::csv_row::{csv_row, format_csv_timestamp, split_elapsed};
use ttrk::duration::format_duration;
use ttrk::log::{format_log, has_newline, CommandError, Log, Session};
use ttrk::parse::{parse_log, ParseError};
use ttrk::status::Totals;
use ttrk::time::{elapsed_seconds, Time};

fn at(year: u16, month: u8, day: u8, hour: u8, minute: u8, second: u8, offset: i16) -> Time {
    Time::new(year, month, day, hour, minute, second, offset).unwrap()
}

fn completed(start: Time, end: Time, message: &str) -> Session {
    Session { start, end: Some(end), message: Some(message.to_string()) }
}

fn current(start: Time) -> Session {
    Session { start, end: None, message: None }
}

fn same_session(a: &Session, b: &Session) -> bool {
    a.start == b.start && a.end == b.end && a.message == b.message
}

fn same_log(a: &Log, b: &Log) -> bool {
    a.completed.len() == b.completed.len()
        && a.completed.iter().zip(b.completed.iter()).all(|(x, y)| same_session(x, y))
        && match (&a.current, &b.current) {
            (None, None) => true,
            (Some(x), Some(y)) => same_session(x, y),
            _ => false,
        }
}

#[test]
fn duration_zero_is_not_available() {
    assert_eq!(format_duration(0), "N/A");
}

#[test]
fn duration_minute_and_second() {
    assert_eq!(format_duration(61), "1 minute, 1 second");
}

#[test]
fn duration_hour_minute_second() {
    assert_eq!(format_duration(3661), "1 hour, 1 minute, 1 second");
}

#[test]
fn duration_negative_is_not_available() {
    assert_eq!(format_duration(-5), "N/A");
}

#[test]
fn duration_plural_and_omitted_parts() {
    assert_eq!(format_duration(7322), "2 hours, 2 minutes, 2 seconds");
    assert_eq!(format_duration(3600), "1 hour");
    assert_eq!(format_duration(120), "2 minutes");
    assert_eq!(format_duration(3), "3 seconds");
    assert_eq!(format_duration(1), "1 second");
    assert_eq!(format_duration(90061), "25 hours, 1 minute, 1 second");
}

#[test]
fn time_rejects_invalid_fields() {
    assert!(Time::new(2022, 6, 31, 0, 0, 0, 0).is_none());
    assert!(Time::new(2022, 13, 1, 0, 0, 0, 0).is_none());
    assert!(Time::new(2023, 2, 29, 0, 0, 0, 0).is_none());
    assert!(Time::new(2024, 2, 29, 0, 0, 0, 0).is_some());
    assert!(Time::new(1900, 2, 29, 0, 0, 0, 0).is_none());
    assert!(Time::new(2000, 2, 29, 0, 0, 0, 0).is_some());
    assert!(Time::new(2022, 6, 24, 24, 0, 0, 0).is_none());
    assert!(Time::new(2022, 6, 24, 0, 0, 0, 1560).is_none());
}

#[test]
fn time_display_form() {
    assert_eq!(at(2022, 6, 24, 16, 55, 46, -300).display(), "06-24-2022 16:55:46 (UTC-05:00)");
    assert_eq!(at(987, 12, 1, 3, 4, 5, 330).display(), "12-01-0987 03:04:05 (UTC+05:30)");
    assert_eq!(at(2022, 1, 1, 0, 0, 0, 0).display(), "01-01-2022 00:00:00 (UTC+00:00)");
}

#[test]
fn time_display_reads_back() {
    for t in [at(2022, 6, 24, 16, 55, 46, -300), at(987, 12, 1, 3, 4, 5, 330), at(9999, 12, 31, 23, 59, 59, -1559)] {
        assert_eq!(Time::parse_display(&t.display()), Some(t));
    }
    assert_eq!(Time::parse_display("06-32-2022 16:55:46 (UTC-05:00)"), None);
    assert_eq!(Time::parse_display("06-24-2022 16:55:46 (UTC*05:00)"), None);
    assert_eq!(Time::parse_display("06-24-2022 16:55:46 (UTC-05:00) "), None);
}

#[test]
fn elapsed_across_offsets() {
    let a = at(2022, 6, 24, 16, 55, 46, -300);
    let b = at(2022, 6, 24, 21, 55, 49, 0);
    assert_eq!(elapsed_seconds(&a, &b), 3);
    assert_eq!(elapsed_seconds(&b, &a), -3);
    assert_eq!(elapsed_seconds(&at(1970, 1, 1, 0, 0, 0, 0), &at(1970, 1, 2, 0, 0, 0, 0)), 86400);
}

#[test]
fn empty_log_formats_to_nothing() {
    let now = at(2022, 6, 24, 17, 0, 0, 0);
    assert_eq!(format_log(&Log::new(), &now), "");
}

#[test]
fn log_lines() {
    let start = at(2022, 6, 24, 16, 55, 46, -300);
    let end = at(2022, 6, 24, 16, 55, 49, -300);
    let cur = at(2022, 6, 24, 17, 21, 10, -300);
    let now = at(2022, 6, 24, 17, 56, 57, -300);
    let log = Log { completed: vec![completed(start, end, "Message here")], current: Some(current(cur)) };
    assert_eq!(
        format_log(&log, &now),
        "06-24-2022 16:55:46 (UTC-05:00) -> 06-24-2022 16:55:49 (UTC-05:00) (3 seconds): Message here\n\
         06-24-2022 17:21:10 (UTC-05:00) -> [now]                           (35 minutes, 47 seconds)\n"
    );
}

#[test]
fn log_text_reads_back() {
    let log = Log {
        completed: vec![
            completed(at(2022, 6, 24, 16, 55, 46, -300), at(2022, 6, 24, 16, 55, 49, -300), "one (with parens): and colons"),
            completed(at(2022, 6, 24, 18, 0, 0, 60), at(2022, 6, 24, 18, 0, 0, 60), ""),
            completed(at(2022, 6, 25, 9, 0, 0, 0), at(2022, 6, 24, 9, 0, 0, 0), "backwards"),
        ],
        current: Some(current(at(2022, 6, 26, 8, 0, 0, 0))),
    };
    let now = at(2022, 6, 26, 9, 30, 0, 0);
    let parsed = parse_log(&format_log(&log, &now)).unwrap();
    assert!(same_log(&parsed, &log));
    let no_current = Log { completed: log.completed.clone(), current: None };
    let parsed = parse_log(&format_log(&no_current, &now)).unwrap();
    assert!(same_log(&parsed, &no_current));
}

#[test]
fn parse_rejects_message_on_current() {
    let text = "06-24-2022 17:21:10 (UTC-05:00) -> [now]                           (35 minutes): hi\n";
    assert_eq!(parse_log(text).unwrap_err(), ParseError::CurrentWithMessage);
}

#[test]
fn parse_rejects_two_current() {
    let text = "06-24-2022 17:21:10 (UTC-05:00) -> [now]  (1 second)\n\
                06-24-2022 17:22:10 (UTC-05:00) -> [now]  (1 second)\n";
    assert_eq!(parse_log(text).unwrap_err(), ParseError::MultipleCurrent);
}

#[test]
fn parse_rejects_completed_without_message() {
    let text = "06-24-2022 16:55:46 (UTC-05:00) -> 06-24-2022 16:55:49 (UTC-05:00) (3 seconds)";
    assert_eq!(parse_log(text).unwrap_err(), ParseError::CompletedWithoutMessage);
}

#[test]
fn parse_rejects_out_of_range_date() {
    let text = "06-32-2022 16:55:46 (UTC-05:00) -> 06-24-2022 16:55:49 (UTC-05:00) (3 seconds): x";
    assert_eq!(parse_log(text).unwrap_err(), ParseError::InvalidTimestamp);
    let text = "02-29-2023 16:55:46 (UTC-05:00) -> [now] (x)";
    assert_eq!(parse_log(text).unwrap_err(), ParseError::InvalidTimestamp);
}

#[test]
fn parse_rejects_malformed_line() {
    assert_eq!(parse_log("hello\n").unwrap_err(), ParseError::Malformed);
    let text = "06-24-2022 16:55:46 (UTC-05:00) -> 06-24-2022 16:55:49 (UTC-05:00) (3 seconds: x";
    assert_eq!(parse_log(text).unwrap_err(), ParseError::Malformed);
    let text = "06-24-2022 16:55:46 (UTC-05:00) -> 06-24-2022 16:55:49 (UTC-05:00)(3 seconds): x";
    assert_eq!(parse_log(text).unwrap_err(), ParseError::Malformed);
}

#[test]
fn parse_skips_comments_and_blank_lines() {
    let text = "# a comment\n\n#06-24-2022 17:21:10 (UTC-05:00) -> [now] (1 second): x\n\
                06-24-2022 16:55:46 (UTC-05:00) -> 06-24-2022 16:55:49 (UTC-05:00) (anything, N/A at all): done\n\
                \n06-24-2022 17:21:10 (UTC-05:00) -> [now]\t (whatever 123)";
    let log = parse_log(text).unwrap();
    assert_eq!(log.completed.len(), 1);
    assert_eq!(log.completed[0].message, Some("done".to_string()));
    assert_eq!(log.completed[0].start, at(2022, 6, 24, 16, 55, 46, -300));
    assert_eq!(log.completed[0].end, Some(at(2022, 6, 24, 16, 55, 49, -300)));
    assert_eq!(log.current.as_ref().unwrap().start, at(2022, 6, 24, 17, 21, 10, -300));
    assert!(parse_log("").unwrap().completed.is_empty());
}

#[test]
fn begin_twice_keeps_first() {
    let mut log = Log::new();
    let t1 = at(2022, 6, 24, 16, 0, 0, 0);
    let t2 = at(2022, 6, 24, 17, 0, 0, 0);
    assert_eq!(log.begin(t1), Ok(()));
    assert_eq!(log.begin(t2), Err(CommandError::AlreadyCurrent));
    assert_eq!(log.current.as_ref().unwrap().start, t1);
    assert!(log.completed.is_empty());
}

#[test]
fn end_records_session() {
    let mut log = Log::new();
    let t1 = at(2022, 6, 24, 16, 0, 0, 0);
    let t2 = at(2022, 6, 24, 17, 0, 0, 0);
    assert_eq!(log.end(t2, "early".to_string()), Err(CommandError::NoCurrent));
    log.begin(t1).unwrap();
    assert_eq!(log.end(t2, "two\nlines".to_string()), Err(CommandError::MultiLineMessage));
    assert!(log.current.is_some());
    assert_eq!(log.end(t2, "did X".to_string()), Ok(()));
    assert!(log.current.is_none());
    assert_eq!(log.completed.len(), 1);
    assert!(same_session(&log.completed[0], &completed(t1, t2, "did X")));
}

#[test]
fn cancel_drops_current() {
    let mut log = Log::new();
    let t1 = at(2022, 6, 24, 16, 0, 0, 0);
    assert_eq!(log.cancel(), Err(CommandError::NoCurrent));
    log.begin(t1).unwrap();
    assert_eq!(log.cancel(), Ok(t1));
    assert!(log.current.is_none());
    assert!(log.completed.is_empty());
}

#[test]
fn newline_detection() {
    assert!(has_newline("a\nb"));
    assert!(!has_newline("a b"));
}

#[test]
fn csv_row_of_completed_session() {
    let s = completed(at(2022, 6, 24, 16, 55, 46, 0), at(2022, 6, 24, 16, 55, 49, 0), "msg");
    let row = csv_row(&s).unwrap();
    assert_eq!(row.utc_start, "2022-06-24T16:55:46");
    assert_eq!(row.utc_end, "2022-06-24T16:55:49");
    assert_eq!((row.hours, row.minutes, row.seconds), (0, 0, 3));
    assert_eq!(row.message, "msg");
}

#[test]
fn csv_row_normalises_to_utc() {
    let s = completed(at(2022, 6, 24, 23, 30, 0, -300), at(2022, 6, 25, 1, 31, 5, 0), "late");
    let row = csv_row(&s).unwrap();
    assert_eq!(row.utc_start, "2022-06-25T04:30:00");
    assert_eq!(row.utc_end, "2022-06-25T01:31:05");
    assert_eq!((row.hours, row.minutes, row.seconds), (-2, -58, -55));
    let s = completed(at(2022, 6, 24, 10, 0, 0, 0), at(2022, 6, 24, 13, 1, 2, 0), "long");
    let row = csv_row(&s).unwrap();
    assert_eq!((row.hours, row.minutes, row.seconds), (3, 1, 2));
}

#[test]
fn totals_by_day_and_week() {
    let log = Log {
        completed: vec![
            completed(at(2022, 6, 24, 10, 0, 0, 0), at(2022, 6, 24, 11, 0, 0, 0), "today"),
            completed(at(2022, 6, 20, 10, 0, 0, 0), at(2022, 6, 20, 10, 30, 0, 0), "this week"),
            completed(at(2022, 6, 1, 10, 0, 0, 0), at(2022, 6, 1, 10, 0, 10, 0), "earlier"),
        ],
        current: None,
    };
    let Totals { total, today, this_week } = log.totals(&at(2022, 6, 24, 18, 0, 0, 0));
    assert_eq!(total, 3600 + 1800 + 10);
    assert_eq!(today, 3600);
    assert_eq!(this_week, 3600 + 1800);
}

#[test]
fn csv_timestamp_text() {
    assert_eq!(format_csv_timestamp((2022, 6, 24, 16, 55, 46)), "2022-06-24T16:55:46");
    assert_eq!(format_csv_timestamp((-1, 12, 31, 23, 0, 9)), "-0001-12-31T23:00:09");
    assert_eq!(format_csv_timestamp((7, 1, 2, 3, 4, 5)), "0007-01-02T03:04:05");
}

#[test]
fn elapsed_split_into_parts() {
    assert_eq!(split_elapsed(3), (0, 0, 3));
    assert_eq!(split_elapsed(3661), (1, 1, 1));
    assert_eq!(split_elapsed(90061), (25, 1, 1));
    assert_eq!(split_elapsed(-3661), (-1, -1, -1));
    assert_eq!(split_elapsed(0), (0, 0, 0));
    assert_eq!(split_elapsed(i128::MIN).2, -8);
}

#[test]
fn comment_between_lines_changes_nothing() {
    let a = "06-24-2022 16:55:46 (UTC-05:00) -> 06-24-2022 16:55:49 (UTC-05:00) (3 seconds): one\n";
    let b = "06-24-2022 17:21:10 (UTC-05:00) -> [now]  (1 second)\n";
    let plain = parse_log(&format!("{a}{b}")).unwrap();
    let commented = parse_log(&format!("{a}# note\n\n{b}")).unwrap();
    assert!(same_log(&plain, &commented));
}

#[test]
fn duration_contents_are_ignored() {
    let a = parse_log("06-24-2022 16:55:46 (UTC-05:00) -> 06-24-2022 16:55:49 (UTC-05:00) (3 seconds): x").unwrap();
    let b = parse_log("06-24-2022 16:55:46 (UTC-05:00) -> 06-24-2022 16:55:49 (UTC-05:00) (Whatever, N/A!): x").unwrap();
    let c = parse_log("06-24-2022 16:55:46 (UTC-05:00) -> 06-24-2022 16:55:49 (UTC-05:00) (): x").unwrap();
    assert!(same_log(&a, &b));
    assert!(same_log(&a, &c));
}

#[test]
fn totals_with_given_weeks() {
    let log = Log {
        completed: vec![
            completed(at(2022, 6, 24, 10, 0, 0, 0), at(2022, 6, 24, 11, 0, 0, 0), "a"),
            completed(at(2021, 6, 24, 10, 0, 0, 0), at(2021, 6, 24, 10, 0, 5, 0), "b"),
            completed(at(2022, 6, 1, 10, 0, 0, 0), at(2022, 6, 1, 10, 0, 10, 0), "c"),
        ],
        current: None,
    };
    let now = at(2022, 6, 24, 18, 0, 0, 0);
    let weeks = vec![(25, 25), (25, 25), (25, 26)];
    let Totals { total, today, this_week } = log.totals_in_weeks(&now, &weeks, 25);
    assert_eq!(total, 3615);
    assert_eq!(today, 3600);
    assert_eq!(this_week, 3600);
}

#[test]
fn any_whitespace_after_now() {
    let spaced = parse_log("06-24-2022 17:21:10 (UTC-05:00) -> [now] (1 second)").unwrap();
    let fed = parse_log("06-24-2022 17:21:10 (UTC-05:00) -> [now]\u{0C}\u{A0}\u{3000}(1 second)").unwrap();
    assert!(same_log(&spaced, &fed));
    assert_eq!(
        parse_log("06-24-2022 17:21:10 (UTC-05:00) -> [now]x(1 second)").unwrap_err(),
        ParseError::Malformed
    );
}

#[test]
fn windows_line_endings() {
    let text = "# header\r\n\r\n06-24-2022 16:55:46 (UTC-05:00) -> 06-24-2022 16:55:49 (UTC-05:00) (3 seconds): done\r\n\
                06-24-2022 17:21:10 (UTC-05:00) -> [now]  (1 second)\r\n";
    let log = parse_log(text).unwrap();
    assert_eq!(log.completed.len(), 1);
    assert_eq!(log.completed[0].message, Some("done".to_string()));
    assert!(log.current.is_some());
}

#[test]
fn week_of_another_year_not_counted() {
    let log = Log {
        completed: vec![
            completed(at(2021, 6, 24, 10, 0, 0, 0), at(2021, 6, 24, 10, 0, 5, 0), "last year"),
            completed(at(2022, 6, 20, 10, 0, 0, 0), at(2022, 6, 20, 10, 0, 7, 0), "this week"),
        ],
        current: None,
    };
    let Totals { total, today, this_week } = log.totals(&at(2022, 6, 24, 18, 0, 0, 0));
    assert_eq!(total, 12);
    assert_eq!(today, 0);
    assert_eq!(this_week, 7);
}

#[test]
fn parse_rejects_offset_minutes_over_59() {
    let text = "06-24-2022 16:55:46 (UTC+00:75) -> [now] (x)";
    assert_eq!(parse_log(text).unwrap_err(), ParseError::InvalidTimestamp);
    assert_eq!(Time::parse_display("06-24-2022 16:55:46 (UTC+00:60)"), None);
    assert!(Time::parse_display("06-24-2022 16:55:46 (UTC+00:59)").is_some());
}

#[test]
fn entry_found_after_leading_text() {
    let text = "  * 06-24-2022 16:55:46 (UTC-05:00) -> 06-24-2022 16:55:49 (UTC-05:00) (3 seconds): done\n\
                \t06-24-2022 17:21:10 (UTC-05:00) -> [now]  (1 second)";
    let log = parse_log(text).unwrap();
    assert_eq!(log.completed.len(), 1);
    assert_eq!(log.completed[0].start, at(2022, 6, 24, 16, 55, 46, -300));
    assert_eq!(log.completed[0].message, Some("done".to_string()));
    assert_eq!(log.current.as_ref().unwrap().start, at(2022, 6, 24, 17, 21, 10, -300));
}

#[test]
fn text_after_end_has_no_now_line() {
    let mut log = Log::new();
    let t1 = at(2022, 6, 24, 16, 55, 46, -300);
    let t2 = at(2022, 6, 24, 16, 55, 49, -300);
    log.begin(t1).unwrap();
    log.end(t2, "did X".to_string()).unwrap();
    let text = format_log(&log, &at(2022, 6, 24, 18, 0, 0, -300));
    assert_eq!(
        text,
        "06-24-2022 16:55:46 (UTC-05:00) -> 06-24-2022 16:55:49 (UTC-05:00) (3 seconds): did X\n"
    );
    assert!(!text.contains("[now]"));
}
