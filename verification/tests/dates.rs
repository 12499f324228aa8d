use photoman::date::{date_prefix, CalendarDate};
use photoman::filesearch::try_extract_date;

fn ymd(date: CalendarDate) -> (i32, u32, u32) {
    (date.year(), date.month(), date.day())
}

#[test]
fn new_accepts_calendar_days() {
    assert_eq!(ymd(CalendarDate::new(2020, 6, 21).unwrap()), (2020, 6, 21));
    assert_eq!(ymd(CalendarDate::new(0, 1, 1).unwrap()), (0, 1, 1));
    assert_eq!(ymd(CalendarDate::new(9999, 12, 31).unwrap()), (9999, 12, 31));
}

#[test]
fn new_knows_leap_years() {
    assert!(CalendarDate::new(2020, 2, 29).is_some());
    assert!(CalendarDate::new(2000, 2, 29).is_some());
    assert!(CalendarDate::new(2015, 2, 29).is_none());
    assert!(CalendarDate::new(1900, 2, 29).is_none());
    assert!(CalendarDate::new(2021, 2, 28).is_some());
}

#[test]
fn new_refuses_days_that_do_not_exist() {
    assert!(CalendarDate::new(2023, 4, 31).is_none());
    assert!(CalendarDate::new(2023, 4, 30).is_some());
    assert!(CalendarDate::new(2015, 0, 14).is_none());
    assert!(CalendarDate::new(2015, 13, 1).is_none());
    assert!(CalendarDate::new(2015, 1, 0).is_none());
    assert!(CalendarDate::new(2015, 1, 32).is_none());
}

#[test]
fn new_refuses_years_without_four_digits() {
    assert!(CalendarDate::new(10000, 1, 1).is_none());
    assert!(CalendarDate::new(-1, 1, 1).is_none());
}

#[test]
fn new_agrees_with_chrono_on_every_day_of_some_years() {
    for year in [1900, 2000, 2020, 2023] {
        for month in 0..14u32 {
            for day in 0..33u32 {
                let ours = CalendarDate::new(year, month, day).is_some();
                let theirs = chrono::NaiveDate::from_ymd_opt(year, month, day).is_some();
                assert_eq!(ours, theirs, "{}-{}-{}", year, month, day);
            }
        }
    }
}

#[test]
fn format_is_zero_padded() {
    assert_eq!(CalendarDate::new(2020, 6, 21).unwrap().format(), "2020-06-21");
    assert_eq!(CalendarDate::new(7, 1, 2).unwrap().format(), "0007-01-02");
    assert_eq!(CalendarDate::new(0, 12, 31).unwrap().format(), "0000-12-31");
    assert_eq!(CalendarDate::new(9999, 10, 10).unwrap().format(), "9999-10-10");
}

#[test]
fn parse_reads_iso_text() {
    assert_eq!(ymd(CalendarDate::parse("2020-06-21").unwrap()), (2020, 6, 21));
    assert_eq!(ymd(CalendarDate::parse("2015-09-05").unwrap()), (2015, 9, 5));
    assert_eq!(ymd(CalendarDate::parse("0000-01-01").unwrap()), (0, 1, 1));
}

#[test]
fn parse_refuses_days_that_do_not_exist() {
    assert!(CalendarDate::parse("2020-13-45").is_none());
    assert!(CalendarDate::parse("2015-02-29").is_none());
    assert!(CalendarDate::parse("2015-00-10").is_none());
    assert!(CalendarDate::parse("2015-01-00").is_none());
}

#[test]
fn parse_refuses_other_text() {
    assert!(CalendarDate::parse("").is_none());
    assert!(CalendarDate::parse("unknown").is_none());
    assert!(CalendarDate::parse("2020-06-21 ").is_none());
    assert!(CalendarDate::parse("2020-06-21x").is_none());
    assert!(CalendarDate::parse("2020:06:21").is_none());
}

#[test]
fn parse_follows_chrono_on_short_fields() {
    assert_eq!(ymd(CalendarDate::parse("2020-6-1").unwrap()), (2020, 6, 1));
}

#[test]
fn parse_refuses_years_beyond_four_digits() {
    assert!(CalendarDate::parse("+12345-01-01").is_none());
    assert!(CalendarDate::parse("-0001-01-01").is_none());
}

#[test]
fn parse_inverts_format() {
    for (y, m, d) in [(2020, 6, 21), (1, 1, 1), (1999, 12, 31), (2024, 2, 29)] {
        let date = CalendarDate::new(y, m, d).unwrap();
        assert_eq!(CalendarDate::parse(&date.format()), Some(date));
    }
}

#[test]
fn from_parsed_keeps_four_digit_years_only() {
    assert_eq!(CalendarDate::from_parsed(Some((2020, 6, 21))), CalendarDate::new(2020, 6, 21));
    assert_eq!(CalendarDate::from_parsed(Some((12345, 1, 1))), None);
    assert_eq!(CalendarDate::from_parsed(None), None);
}

#[test]
fn date_prefix_takes_ten_characters() {
    assert_eq!(date_prefix("2022-10-02 (Pushkin)"), Some("2022-10-02"));
    assert_eq!(date_prefix("2020-06-21"), Some("2020-06-21"));
    assert_eq!(date_prefix("2020-13-45"), Some("2020-13-45"));
}

#[test]
fn date_prefix_needs_the_exact_shape() {
    assert_eq!(date_prefix("IMGP1011"), None);
    assert_eq!(date_prefix("2020-06-2"), None);
    assert_eq!(date_prefix("2020_06_21"), None);
    assert_eq!(date_prefix("202x-06-21"), None);
    assert_eq!(date_prefix(" 2020-06-21"), None);
    assert_eq!(date_prefix("2020-06-2١"), None);
    assert_eq!(date_prefix(""), None);
}

#[test]
fn folder_date_is_read_from_the_prefix() {
    assert_eq!(try_extract_date("2022-10-02 (Pushkin)"), CalendarDate::new(2022, 10, 2));
    assert_eq!(try_extract_date("2020-06-21"), CalendarDate::new(2020, 6, 21));
    assert_eq!(try_extract_date("2020-06-21raw"), CalendarDate::new(2020, 6, 21));
}

#[test]
fn folder_without_date_has_none() {
    assert_eq!(try_extract_date("IMGP1011"), None);
    assert_eq!(try_extract_date("x2020-06-21"), None);
    assert_eq!(try_extract_date("2020-13-45 (broken)"), None);
}
