//! Calendar dates and their `YYYY-MM-DD` text.
//!
//! Dates are read and written by `chrono`; this module holds the plain
//! year, month and day, the rule for a valid date, and the text form that
//! names a target directory.

use crate::text::{digit_value, is_ascii_digit, is_digit};
use chrono::Datelike;
use chrono::NaiveDate;
use vstd::prelude::*;
use vstd::string::*;

verus! {

/// The `chrono` format of a calendar date: four-digit year, month, day.
pub const DATE_FORMAT: &'static str = "%Y-%m-%d";

/// Length of a date in text form.
pub const DATE_TEXT_LEN: usize = 10;

pub open spec fn is_leap_year(year: int) -> bool {
    year % 4 == 0 && (year % 100 != 0 || year % 400 == 0)
}

pub open spec fn days_in_month(year: int, month: int) -> int {
    if month == 2 {
        if is_leap_year(year) {
            29
        } else {
            28
        }
    } else if month == 4 || month == 6 || month == 9 || month == 11 {
        30
    } else {
        31
    }
}

/// The day exists in the proleptic Gregorian calendar.
pub open spec fn is_calendar_day(year: int, month: int, day: int) -> bool {
    1 <= month <= 12 && 1 <= day <= days_in_month(year, month)
}

/// A calendar day whose year is written with exactly four digits.
pub open spec fn valid_ymd(year: int, month: int, day: int) -> bool {
    0 <= year <= 9999 && is_calendar_day(year, month, day)
}

/// The character of a decimal digit.
pub open spec fn digit_char(d: int) -> char {
    if d == 0 {
        '0'
    } else if d == 1 {
        '1'
    } else if d == 2 {
        '2'
    } else if d == 3 {
        '3'
    } else if d == 4 {
        '4'
    } else if d == 5 {
        '5'
    } else if d == 6 {
        '6'
    } else if d == 7 {
        '7'
    } else if d == 8 {
        '8'
    } else {
        '9'
    }
}

/// `YYYY-MM-DD`, each field zero-padded.
pub open spec fn iso_text(year: int, month: int, day: int) -> Seq<char> {
    seq![
        digit_char(year / 1000),
        digit_char(year / 100 % 10),
        digit_char(year / 10 % 10),
        digit_char(year % 10),
        '-',
        digit_char(month / 10),
        digit_char(month % 10),
        '-',
        digit_char(day / 10),
        digit_char(day % 10),
    ]
}

/// Four digits, a hyphen, two digits, a hyphen, two digits.
pub open spec fn is_iso_shape(s: Seq<char>) -> bool {
    &&& s.len() == 10
    &&& is_digit(s[0])
    &&& is_digit(s[1])
    &&& is_digit(s[2])
    &&& is_digit(s[3])
    &&& s[4] == '-'
    &&& is_digit(s[5])
    &&& is_digit(s[6])
    &&& s[7] == '-'
    &&& is_digit(s[8])
    &&& is_digit(s[9])
}

pub open spec fn iso_year(s: Seq<char>) -> int {
    digit_value(s[0]) * 1000 + digit_value(s[1]) * 100 + digit_value(s[2]) * 10 + digit_value(
        s[3],
    )
}

pub open spec fn iso_month(s: Seq<char>) -> int {
    digit_value(s[5]) * 10 + digit_value(s[6])
}

pub open spec fn iso_day(s: Seq<char>) -> int {
    digit_value(s[8]) * 10 + digit_value(s[9])
}

/// The date that a text of ISO shape denotes, if its day exists.
pub open spec fn iso_value(s: Seq<char>) -> Option<(int, int, int)> {
    if is_iso_shape(s) && is_calendar_day(iso_year(s), iso_month(s), iso_day(s)) {
        Some((iso_year(s), iso_month(s), iso_day(s)))
    } else {
        None
    }
}

/// The leading ten characters of a name, where they have ISO shape.
pub open spec fn date_prefix_of(name: Seq<char>) -> Option<Seq<char>> {
    if name.len() >= 10 && is_iso_shape(name.subrange(0, 10)) {
        Some(name.subrange(0, 10))
    } else {
        None
    }
}

/// What `chrono::NaiveDate::parse_from_str` makes of a text under a format:
/// year, month and day of the date, or `None` where it reports an error.
pub uninterp spec fn chrono_parse_date(text: Seq<char>, format: Seq<char>) -> Option<
    (int, int, int),
>;

pub open spec fn as_ints(r: Option<(i32, u32, u32)>) -> Option<(int, int, int)> {
    match r {
        Some((y, m, d)) => Some((y as int, m as int, d as int)),
        None => None,
    }
}

/// Calls `chrono::NaiveDate::parse_from_str` and hands back year, month and
/// day of the parsed date. Trusted: the result is the one named by
/// `chrono_parse_date`; a parsed date is a day of the calendar; and under
/// `%Y-%m-%d` a text of ISO shape parses to exactly the date it spells, or
/// fails where that day does not exist.
#[verifier::external_body]
fn parse_naive_date(text: &str, format: &str) -> (r: Option<(i32, u32, u32)>)
    ensures
        as_ints(r) == chrono_parse_date(text@, format@),
        r matches Some((y, m, d)) ==> is_calendar_day(y as int, m as int, d as int),
        format@ == DATE_FORMAT@ && is_iso_shape(text@) ==> as_ints(r) == iso_value(text@),
{
    match NaiveDate::parse_from_str(text, format) {
        Ok(date) => Some((date.year(), date.month(), date.day())),
        Err(_) => None,
    }
}

/// Calls `chrono::NaiveDate::format` on the given day. Trusted: under
/// `%Y-%m-%d`, for a year from 0 to 9999, the text is the zero-padded
/// `YYYY-MM-DD`.
#[verifier::external_body]
fn format_naive_date(year: i32, month: u32, day: u32, format: &str) -> (r: String)
    requires
        valid_ymd(year as int, month as int, day as int),
        format@ == DATE_FORMAT@,
    ensures
        r@ == iso_text(year as int, month as int, day as int),
{
    NaiveDate::from_ymd_opt(year, month, day).unwrap().format(format).to_string()
}

/// A day of the calendar with a four-digit year.
#[derive(Clone, Copy, Debug, PartialEq, Eq, Structural, Hash)]
pub struct CalendarDate {
    year: i32,
    month: u32,
    day: u32,
}

impl CalendarDate {
    #[verifier::type_invariant]
    pub open spec fn inv(self) -> bool {
        self.wf()
    }

    pub closed spec fn year_of(self) -> int {
        self.year as int
    }

    pub closed spec fn month_of(self) -> int {
        self.month as int
    }

    pub closed spec fn day_of(self) -> int {
        self.day as int
    }

    /// Every date that executable code holds is well formed.
    pub open spec fn wf(self) -> bool {
        valid_ymd(self.year_of(), self.month_of(), self.day_of())
    }

    /// The date in text form.
    pub open spec fn text(self) -> Seq<char> {
        iso_text(self.year_of(), self.month_of(), self.day_of())
    }

    /// The date that the given numbers denote, if any.
    pub open spec fn from_ymd(year: int, month: int, day: int) -> Option<CalendarDate> {
        if valid_ymd(year, month, day) {
            Some(Self::of(year, month, day))
        } else {
            None
        }
    }

    /// The date with the given fields.
    pub closed spec fn of(year: int, month: int, day: int) -> CalendarDate {
        CalendarDate { year: year as i32, month: month as u32, day: day as u32 }
    }

    /// What a parse result stands for: the date, where its year has four digits.
    pub open spec fn from_parsed_spec(parsed: Option<(int, int, int)>) -> Option<CalendarDate> {
        match parsed {
            Some((y, m, d)) => Self::from_ymd(y, m, d),
            None => None,
        }
    }

    /// Two dates with the same fields are the same date, and `of` inverts the fields.
    pub proof fn lemma_fields(self)
        requires
            self.wf(),
        ensures
            Self::of(self.year_of(), self.month_of(), self.day_of()) == self,
    {
    }

    /// The date with the given year, month and day; `None` unless the day
    /// exists and the year lies between 0 and 9999.
    pub fn new(year: i32, month: u32, day: u32) -> (r: Option<CalendarDate>)
        ensures
            r == Self::from_ymd(year as int, month as int, day as int),
            r matches Some(d) ==> d.year_of() == year && d.month_of() == month && d.day_of()
                == day && d.wf(),
    {
        if year < 0 || year > 9999 || month < 1 || month > 12 || day < 1 {
            return None;
        }
        let leap: bool = year % 4 == 0 && (year % 100 != 0 || year % 400 == 0);
        let days: u32 = if month == 2 {
            if leap {
                29
            } else {
                28
            }
        } else if month == 4 || month == 6 || month == 9 || month == 11 {
            30
        } else {
            31
        };
        if day > days {
            return None;
        }
        Some(CalendarDate { year, month, day })
    }

    pub fn year(&self) -> (r: i32)
        ensures
            r == self.year_of(),
    {
        self.year
    }

    pub fn month(&self) -> (r: u32)
        ensures
            r == self.month_of(),
    {
        self.month
    }

    pub fn day(&self) -> (r: u32)
        ensures
            r == self.day_of(),
    {
        self.day
    }

    /// The date that a parse result stands for.
    pub fn from_parsed(parsed: Option<(i32, u32, u32)>) -> (r: Option<CalendarDate>)
        ensures
            r == Self::from_parsed_spec(as_ints(parsed)),
    {
        match parsed {
            Some((y, m, d)) => Self::new(y, m, d),
            None => None,
        }
    }

    /// Reads a date from text as `chrono` does under `%Y-%m-%d`. A text of
    /// ISO shape gives the date it spells; a date whose year does not have
    /// four digits is refused.
    pub fn parse(text: &str) -> (r: Option<CalendarDate>)
        ensures
            r == Self::from_parsed_spec(chrono_parse_date(text@, DATE_FORMAT@)),
            is_iso_shape(text@) ==> r == Self::from_parsed_spec(iso_value(text@)),
            r matches Some(d) ==> d.wf(),
    {
        let parsed = parse_naive_date(text, DATE_FORMAT);
        Self::from_parsed(parsed)
    }

    /// The date as `YYYY-MM-DD`, written by `chrono`.
    pub fn format(&self) -> (r: String)
        ensures
            r@ == self.text(),
    {
        proof {
            use_type_invariant(self);
        }
        format_naive_date(self.year, self.month, self.day, DATE_FORMAT)
    }
}

/// The text of a valid date has ISO shape and spells that date.
pub proof fn lemma_iso_text_round_trip(year: int, month: int, day: int)
    requires
        valid_ymd(year, month, day),
    ensures
        is_iso_shape(iso_text(year, month, day)),
        iso_value(iso_text(year, month, day)) == Some((year, month, day)),
{
    lemma_digits_spell(
        year / 1000,
        year / 100 % 10,
        year / 10 % 10,
        year % 10,
        month / 10,
        month % 10,
        day / 10,
        day % 10,
    );
}

/// Eight digits laid out as `YYYY-MM-DD` have ISO shape and spell their numbers.
proof fn lemma_digits_spell(y3: int, y2: int, y1: int, y0: int, m1: int, m0: int, d1: int, d0: int)
    requires
        0 <= y3 <= 9,
        0 <= y2 <= 9,
        0 <= y1 <= 9,
        0 <= y0 <= 9,
        0 <= m1 <= 9,
        0 <= m0 <= 9,
        0 <= d1 <= 9,
        0 <= d0 <= 9,
    ensures
        ({
            let s = seq![
                digit_char(y3),
                digit_char(y2),
                digit_char(y1),
                digit_char(y0),
                '-',
                digit_char(m1),
                digit_char(m0),
                '-',
                digit_char(d1),
                digit_char(d0),
            ];
            &&& is_iso_shape(s)
            &&& iso_year(s) == y3 * 1000 + y2 * 100 + y1 * 10 + y0
            &&& iso_month(s) == m1 * 10 + m0
            &&& iso_day(s) == d1 * 10 + d0
        }),
{
    lemma_digit(y3);
    lemma_digit(y2);
    lemma_digit(y1);
    lemma_digit(y0);
    lemma_digit(m1);
    lemma_digit(m0);
    lemma_digit(d1);
    lemma_digit(d0);
}

/// A digit's character is a digit and has the digit's value.
pub proof fn lemma_digit(d: int)
    requires
        0 <= d <= 9,
    ensures
        is_digit(digit_char(d)),
        digit_value(digit_char(d)) == d,
{
}

/// The leading date text of a name: its first ten characters, where they
/// are four digits, a hyphen, two digits, a hyphen and two digits.
pub fn date_prefix(name: &str) -> (r: Option<&str>)
    ensures
        r is Some == date_prefix_of(name@) is Some,
        r matches Some(p) ==> Some(p@) == date_prefix_of(name@),
{
    let n: usize = name.unicode_len();
    if n < DATE_TEXT_LEN {
        return None;
    }
    let p: &str = name.substring_char(0, DATE_TEXT_LEN);
    let mut i: usize = 0;
    while i < DATE_TEXT_LEN
        invariant
            i <= 10,
            name@.len() >= 10,
            p@ == name@.subrange(0, 10),
            forall|j: int|
                0 <= j < i ==> (if j == 4 || j == 7 {
                    p@[j] == '-'
                } else {
                    is_digit(p@[j])
                }),
        decreases 10 - i,
    {
        let c: char = p.get_char(i);
        let ok: bool = if i == 4 || i == 7 {
            c == '-'
        } else {
            is_ascii_digit(c)
        };
        if !ok {
            return None;
        }
        i += 1;
    }
    assert(is_iso_shape(p@)) by {
        assert(is_digit(p@[0]) && is_digit(p@[1]) && is_digit(p@[2]) && is_digit(p@[3]));
        assert(p@[4] == '-' && p@[7] == '-');
        assert(is_digit(p@[5]) && is_digit(p@[6]) && is_digit(p@[8]) && is_digit(p@[9]));
    }
    Some(p)
}

} // verus!
