//! The calendar date a puzzle is keyed by, in `YYYY-MM-DD` textual form.

use vstd::prelude::*;

use crate::ascii::ascii_bytes_to_string;

verus! {

/// Whether `y` is a leap year of the proleptic Gregorian calendar.
pub open spec fn spec_is_leap_year(y: int) -> bool {
    (y % 4 == 0 && y % 100 != 0) || y % 400 == 0
}

/// The number of days of month `m` in year `y`.
pub open spec fn spec_days_in_month(y: int, m: int) -> int {
    if m == 2 {
        if spec_is_leap_year(y) {
            29
        } else {
            28
        }
    } else if m == 4 || m == 6 || m == 9 || m == 11 {
        30
    } else {
        31
    }
}

/// Whether `y-m-d` is a calendar date that the four-digit textual form
/// can carry.
pub open spec fn spec_calendar_valid(y: int, m: int, d: int) -> bool {
    0 <= y <= 9999 && 1 <= m <= 12 && 1 <= d <= spec_days_in_month(y, m)
}

/// The character of one decimal digit.
pub open spec fn spec_digit_char(d: int) -> char {
    ((d + 48) as u8) as char
}

/// Whether a character is a decimal digit.
pub open spec fn spec_is_digit(c: char) -> bool {
    '0' <= c && c <= '9'
}

/// The value of a decimal digit character.
pub open spec fn spec_digit_val(c: char) -> int {
    c as int - 48
}

/// The ten characters of a date in `YYYY-MM-DD` form.
pub open spec fn spec_date_text(y: int, m: int, d: int) -> Seq<char> {
    let y1 = y / 1000;
    let y2 = (y - 1000 * y1) / 100;
    let y3 = (y - 1000 * y1 - 100 * y2) / 10;
    let y4 = y - 1000 * y1 - 100 * y2 - 10 * y3;
    let m1 = m / 10;
    let m2 = m - 10 * m1;
    let d1 = d / 10;
    let d2 = d - 10 * d1;
    seq![
        spec_digit_char(y1),
        spec_digit_char(y2),
        spec_digit_char(y3),
        spec_digit_char(y4),
        '-',
        spec_digit_char(m1),
        spec_digit_char(m2),
        '-',
        spec_digit_char(d1),
        spec_digit_char(d2),
    ]
}

/// The year, month and day read from a `YYYY-MM-DD` text, if it has that
/// shape; the values are not yet checked against the calendar.
pub open spec fn spec_parse_ymd(s: Seq<char>) -> Option<(int, int, int)> {
    if s.len() == 10 && spec_is_digit(s[0]) && spec_is_digit(s[1]) && spec_is_digit(s[2])
        && spec_is_digit(s[3]) && s[4] == '-' && spec_is_digit(s[5]) && spec_is_digit(s[6]) && s[7]
        == '-' && spec_is_digit(s[8]) && spec_is_digit(s[9]) {
        Some(
            (
                1000 * spec_digit_val(s[0]) + 100 * spec_digit_val(s[1]) + 10 * spec_digit_val(
                    s[2],
                ) + spec_digit_val(s[3]),
                10 * spec_digit_val(s[5]) + spec_digit_val(s[6]),
                10 * spec_digit_val(s[8]) + spec_digit_val(s[9]),
            ),
        )
    } else {
        None
    }
}

/// Round-trip: reading back the textual form of a date recovers the
/// year, month and day.
pub proof fn lemma_date_text_round_trip(y: int, m: int, d: int)
    requires
        0 <= y <= 9999,
        0 <= m <= 99,
        0 <= d <= 99,
    ensures
        spec_parse_ymd(spec_date_text(y, m, d)) == Some((y, m, d)),
{
    let s = spec_date_text(y, m, d);
    let y1 = y / 1000;
    let y2 = (y - 1000 * y1) / 100;
    let y3 = (y - 1000 * y1 - 100 * y2) / 10;
    let y4 = y - 1000 * y1 - 100 * y2 - 10 * y3;
    assert(0 <= y1 <= 9);
    assert(0 <= y2 <= 9);
    assert(0 <= y3 <= 9);
    assert(0 <= y4 <= 9);
    let m1 = m / 10;
    let m2 = m - 10 * m1;
    let d1 = d / 10;
    let d2 = d - 10 * d1;
    assert(0 <= m1 <= 9 && 0 <= m2 <= 9);
    assert(0 <= d1 <= 9 && 0 <= d2 <= 9);
    assert(spec_digit_val(spec_digit_char(y1)) == y1);
    assert(spec_digit_val(spec_digit_char(y2)) == y2);
    assert(spec_digit_val(spec_digit_char(y3)) == y3);
    assert(spec_digit_val(spec_digit_char(y4)) == y4);
    assert(spec_digit_val(spec_digit_char(m1)) == m1);
    assert(spec_digit_val(spec_digit_char(m2)) == m2);
    assert(spec_digit_val(spec_digit_char(d1)) == d1);
    assert(spec_digit_val(spec_digit_char(d2)) == d2);
}

/// The date of one puzzle instance, no earlier than 1970-01-01 and
/// carried in four-digit-year textual form.
#[derive(Debug, Clone, Copy, PartialEq, Eq, Structural)]
pub struct PuzzleDate {
    year: u16,
    month: u8,
    day: u8,
}

/// Why a string was rejected as a puzzle date.
#[derive(Debug, Clone, Copy, PartialEq, Eq, Structural)]
pub enum PuzzleDateError {
    /// The text is not a `YYYY-MM-DD` calendar date.
    InvalidFormat,
    /// The date lies before 1970-01-01.
    TooEarly,
}

/// The textual description of a date error.
pub open spec fn spec_date_error_message(e: PuzzleDateError) -> Seq<char> {
    match e {
        PuzzleDateError::InvalidFormat => "the date must be formatted as YYYY-MM-DD"@,
        PuzzleDateError::TooEarly => "the date cannot be earlier than 1970-01-01"@,
    }
}

impl PuzzleDateError {
    /// The human-readable description of this error.
    pub fn message(&self) -> (r: String)
        ensures
            r@ == spec_date_error_message(*self),
    {
        match self {
            PuzzleDateError::InvalidFormat => {
                String::from_str("the date must be formatted as YYYY-MM-DD")
            },
            PuzzleDateError::TooEarly => {
                String::from_str("the date cannot be earlier than 1970-01-01")
            },
        }
    }
}

impl View for PuzzleDate {
    type V = (int, int, int);

    closed spec fn view(&self) -> (int, int, int) {
        (self.year as int, self.month as int, self.day as int)
    }
}

impl PuzzleDate {
    /// A valid puzzle date is a calendar date from 1970 on.
    pub open spec fn wf(&self) -> bool {
        spec_calendar_valid(self@.0, self@.1, self@.2) && self@.0 >= 1970
    }

    /// Validates a year, month and day as a puzzle date.
    pub fn new(year: u16, month: u8, day: u8) -> (r: Result<PuzzleDate, PuzzleDateError>)
        ensures
            spec_calendar_valid(year as int, month as int, day as int) && year >= 1970 ==> (r
                matches Ok(date) && date@ == (year as int, month as int, day as int)
                && date.wf()),
            !spec_calendar_valid(year as int, month as int, day as int) ==> r == Err::<
                PuzzleDate,
                PuzzleDateError,
            >(PuzzleDateError::InvalidFormat),
            spec_calendar_valid(year as int, month as int, day as int) && year < 1970 ==> r
                == Err::<PuzzleDate, PuzzleDateError>(PuzzleDateError::TooEarly),
    {
        let days = if month == 2 {
            if (year % 4 == 0 && year % 100 != 0) || year % 400 == 0 {
                29
            } else {
                28
            }
        } else if month == 4 || month == 6 || month == 9 || month == 11 {
            30
        } else {
            31
        };
        if !(year <= 9999 && 1 <= month && month <= 12 && 1 <= day && day <= days) {
            Err(PuzzleDateError::InvalidFormat)
        } else if year < 1970 {
            Err(PuzzleDateError::TooEarly)
        } else {
            Ok(PuzzleDate { year, month, day })
        }
    }

    /// The year, month and day.
    pub fn inner(&self) -> (r: (u16, u8, u8))
        ensures
            r.0 as int == self@.0,
            r.1 as int == self@.1,
            r.2 as int == self@.2,
    {
        (self.year, self.month, self.day)
    }

    /// Parses a `YYYY-MM-DD` text into a puzzle date: the shape and the
    /// calendar must both hold, and the date may not lie before
    /// 1970-01-01.
    pub fn parse(s: &str) -> (r: Result<PuzzleDate, PuzzleDateError>)
        ensures
            spec_parse_ymd(s@) is None ==> r == Err::<PuzzleDate, PuzzleDateError>(
                PuzzleDateError::InvalidFormat,
            ),
            spec_parse_ymd(s@) matches Some(ymd) ==> (if !spec_calendar_valid(
                ymd.0,
                ymd.1,
                ymd.2,
            ) {
                r == Err::<PuzzleDate, PuzzleDateError>(PuzzleDateError::InvalidFormat)
            } else if ymd.0 < 1970 {
                r == Err::<PuzzleDate, PuzzleDateError>(PuzzleDateError::TooEarly)
            } else {
                r matches Ok(date) && date@ == ymd && date.wf()
            }),
    {
        let len = s.unicode_len();
        if len != 10 {
            return Err(PuzzleDateError::InvalidFormat);
        }
        let c0 = s.get_char(0);
        let c1 = s.get_char(1);
        let c2 = s.get_char(2);
        let c3 = s.get_char(3);
        let c4 = s.get_char(4);
        let c5 = s.get_char(5);
        let c6 = s.get_char(6);
        let c7 = s.get_char(7);
        let c8 = s.get_char(8);
        let c9 = s.get_char(9);
        let digits_ok = ('0' <= c0 && c0 <= '9') && ('0' <= c1 && c1 <= '9') && ('0' <= c2 && c2
            <= '9') && ('0' <= c3 && c3 <= '9') && c4 == '-' && ('0' <= c5 && c5 <= '9') && ('0'
            <= c6 && c6 <= '9') && c7 == '-' && ('0' <= c8 && c8 <= '9') && ('0' <= c9 && c9
            <= '9');
        if !digits_ok {
            return Err(PuzzleDateError::InvalidFormat);
        }
        let year: u16 = 1000 * ((c0 as u8 - 48) as u16) + 100 * ((c1 as u8 - 48) as u16) + 10 * ((
        c2 as u8 - 48) as u16) + ((c3 as u8 - 48) as u16);
        let month: u8 = 10 * (c5 as u8 - 48) + (c6 as u8 - 48);
        let day: u8 = 10 * (c8 as u8 - 48) + (c9 as u8 - 48);
        PuzzleDate::new(year, month, day)
    }

    /// The `YYYY-MM-DD` textual form of this date.
    pub fn to_text(&self) -> (r: String)
        requires
            self.wf(),
        ensures
            r@ == spec_date_text(self@.0, self@.1, self@.2),
    {
        let y = self.year;
        let y1 = y / 1000;
        let y2 = (y - 1000 * y1) / 100;
        let y3 = (y - 1000 * y1 - 100 * y2) / 10;
        let y4 = y - 1000 * y1 - 100 * y2 - 10 * y3;
        let m1 = self.month / 10;
        let m2 = self.month - 10 * m1;
        let d1 = self.day / 10;
        let d2 = self.day - 10 * d1;
        let mut bytes: Vec<u8> = Vec::new();
        bytes.push(y1 as u8 + 48);
        bytes.push(y2 as u8 + 48);
        bytes.push(y3 as u8 + 48);
        bytes.push(y4 as u8 + 48);
        bytes.push(45);
        bytes.push(m1 + 48);
        bytes.push(m2 + 48);
        bytes.push(45);
        bytes.push(d1 + 48);
        bytes.push(d2 + 48);
        let text = ascii_bytes_to_string(bytes);
        proof {
            assert(text@ =~= spec_date_text(self@.0, self@.1, self@.2));
        }
        text
    }
}

} // verus!
