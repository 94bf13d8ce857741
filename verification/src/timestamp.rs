//! Capture timestamps: where they come from and how they are written.
//!
//! A timestamp is a local date and time to the second, without a time zone.
//! It is read from the EXIF data of a file or from digits in its name; both
//! readings end in a parse by `chrono`, whose result is checked field by field
//! before a `Timestamp` is made of it. `chrono` also writes it out.

use vstd::prelude::*;
use crate::text::{chars_of, four_digits, push_chars, string_of, two_digits};

verus! {

/// The fields of a date and time as `chrono` hands them out.
#[derive(Clone, Copy, Debug, PartialEq, Eq, Structural)]
pub struct DateTimeParts {
    pub year: i32,
    pub month: u32,
    pub day: u32,
    pub hour: u32,
    pub minute: u32,
    pub second: u32,
    /// Nanoseconds since the whole second; from 1,000,000,000 on, the second
    /// is a leap second.
    pub nanosecond: u32,
}

/// What a `Timestamp` stands for.
pub struct Moment {
    pub year: int,
    pub month: int,
    pub day: int,
    pub hour: int,
    pub minute: int,
    pub second: int,
}

/// A local date and time to the second. The year has four digits, and the
/// second runs to 60, which stands for a leap second.
#[derive(Clone, Copy, Debug, PartialEq, Eq, Structural)]
pub struct Timestamp {
    year: u16,
    month: u8,
    day: u8,
    hour: u8,
    minute: u8,
    second: u8,
}

/// Whether the year has a 29th of February.
pub open spec fn is_leap_year(year: int) -> bool {
    year % 4 == 0 && (year % 100 != 0 || year % 400 == 0)
}

/// The number of days of a month.
pub open spec fn days_in_month(year: int, month: int) -> int {
    if month == 2 {
        if is_leap_year(year) {
            29
        } else {
            28
        }
    } else if month == 4 || month == 6 || month == 9 || month == 11 {
        30
    } else {
        31
    }
}

/// The fields of a moment are those of a day of the calendar in a year of
/// four digits and of a time of that day, with a possible leap second.
pub open spec fn moment_in_range(m: Moment) -> bool {
    &&& 0 <= m.year <= 9999
    &&& 1 <= m.month <= 12
    &&& 1 <= m.day <= days_in_month(m.year, m.month)
    &&& 0 <= m.hour <= 23
    &&& 0 <= m.minute <= 59
    &&& 0 <= m.second <= 60
}

/// The parts are those of a day of the calendar in a year of four digits
/// and of a time of that day. A leap second is the second 59 with a thousand
/// million nanoseconds or more.
pub open spec fn parts_in_range(p: DateTimeParts) -> bool {
    &&& 0 <= p.year <= 9999
    &&& 1 <= p.month <= 12
    &&& 1 <= p.day <= days_in_month(p.year as int, p.month as int)
    &&& p.hour <= 23
    &&& p.minute <= 59
    &&& p.second <= 59
    &&& p.nanosecond < 2_000_000_000
    &&& p.nanosecond >= 1_000_000_000 ==> p.second == 59
}

/// The moment that the parts stand for, where they are in range. The
/// nanoseconds only tell whether the second is a leap second.
pub open spec fn moment_of(p: DateTimeParts) -> Option<Moment> {
    if parts_in_range(p) {
        Some(
            Moment {
                year: p.year as int,
                month: p.month as int,
                day: p.day as int,
                hour: p.hour as int,
                minute: p.minute as int,
                second: p.second + p.nanosecond / 1_000_000_000,
            },
        )
    } else {
        None
    }
}

/// The moment with these fields, where each lies in its range.
pub open spec fn moment_from_fields(
    year: int,
    month: int,
    day: int,
    hour: int,
    minute: int,
    second: int,
) -> Option<Moment> {
    let m = Moment { year, month, day, hour, minute, second };
    if moment_in_range(m) {
        Some(m)
    } else {
        None
    }
}

/// The moment written as `YYYYMMDD_HHMMSS`.
pub open spec fn compact_text(m: Moment) -> Seq<char> {
    four_digits(m.year) + two_digits(m.month) + two_digits(m.day) + seq!['_'] + two_digits(m.hour)
        + two_digits(m.minute) + two_digits(m.second)
}

/// The moment of a timestamp, if there is one.
pub open spec fn moment_of_option(t: Option<Timestamp>) -> Option<Moment> {
    match t {
        Some(t) => Some(t@),
        None => None,
    }
}

impl View for Timestamp {
    type V = Moment;

    closed spec fn view(&self) -> Moment {
        Moment {
            year: self.year as int,
            month: self.month as int,
            day: self.day as int,
            hour: self.hour as int,
            minute: self.minute as int,
            second: self.second as int,
        }
    }
}

impl Timestamp {
    #[verifier::type_invariant]
    spec fn in_range(self) -> bool {
        moment_in_range(self@)
    }

    /// A timestamp from its fields; `None` where one of them is out of range.
    pub fn new(year: u16, month: u8, day: u8, hour: u8, minute: u8, second: u8) -> (r: Option<
        Timestamp,
    >)
        ensures
            moment_of_option(r) == moment_from_fields(
                year as int,
                month as int,
                day as int,
                hour as int,
                minute as int,
                second as int,
            ),
    {
        if year <= 9999 && 1 <= month && month <= 12 && 1 <= day && day <= month_length(year, month)
            && hour <= 23 && minute <= 59 && second <= 60 {
            Some(Timestamp { year, month, day, hour, minute, second })
        } else {
            None
        }
    }

    /// A timestamp from the fields of a `chrono` date and time; `None` where
    /// one of them is out of range.
    pub fn from_parts(p: DateTimeParts) -> (r: Option<Timestamp>)
        ensures
            moment_of_option(r) == moment_of(p),
    {
        if 0 <= p.year && p.year <= 9999 && 1 <= p.month && p.month <= 12 && p.hour <= 23 && p.minute
            <= 59 && p.second <= 59 && p.nanosecond < 2_000_000_000 {
            let year = p.year as u16;
            let month = p.month as u8;
            let leap = p.nanosecond >= 1_000_000_000;
            if p.day < 1 || p.day > month_length(year, month) as u32 || (leap && p.second != 59) {
                return None;
            }
            let second: u8 = if leap {
                60
            } else {
                p.second as u8
            };
            Some(
                Timestamp {
                    year,
                    month,
                    day: p.day as u8,
                    hour: p.hour as u8,
                    minute: p.minute as u8,
                    second,
                },
            )
        } else {
            None
        }
    }

    /// The year, from 0 to 9999.
    pub fn year(&self) -> (r: u16)
        ensures
            r == self@.year,
    {
        self.year
    }

    /// The month, from 1 to 12.
    pub fn month(&self) -> (r: u8)
        ensures
            r == self@.month,
    {
        self.month
    }

    /// The day of the month, from 1.
    pub fn day(&self) -> (r: u8)
        ensures
            r == self@.day,
    {
        self.day
    }

    /// The hour, from 0 to 23.
    pub fn hour(&self) -> (r: u8)
        ensures
            r == self@.hour,
    {
        self.hour
    }

    /// The minute, from 0 to 59.
    pub fn minute(&self) -> (r: u8)
        ensures
            r == self@.minute,
    {
        self.minute
    }

    /// The second, from 0 to 60; 60 is a leap second.
    pub fn second(&self) -> (r: u8)
        ensures
            r == self@.second,
    {
        self.second
    }

    /// Two timestamps are equal exactly when they stand for the same moment.
    pub proof fn lemma_view_injective(a: Timestamp, b: Timestamp)
        ensures
            (a@ == b@) == (a == b),
    {
    }

    /// The timestamp written as `YYYYMMDD_HHMMSS`.
    pub fn compact(&self) -> (r: String)
        ensures
            r@ == compact_text(self@),
    {
        proof {
            use_type_invariant(self);
        }
        let leap = self.second == 60;
        let parts = DateTimeParts {
            year: self.year as i32,
            month: self.month as u32,
            day: self.day as u32,
            hour: self.hour as u32,
            minute: self.minute as u32,
            second: if leap {
                59
            } else {
                self.second as u32
            },
            nanosecond: if leap {
                1_000_000_000
            } else {
                0
            },
        };
        let text = format_compact(parts);
        text.unwrap()
    }
}

/// The number of days of a month.
fn month_length(year: u16, month: u8) -> (days: u8)
    ensures
        days == days_in_month(year as int, month as int),
{
    if month == 2 {
        if year % 4 == 0 && (year % 100 != 0 || year % 400 == 0) {
            29
        } else {
            28
        }
    } else if month == 4 || month == 6 || month == 9 || month == 11 {
        30
    } else {
        31
    }
}

/// What `chrono` reads out of `text` under the format `format`: the fields of
/// the date and time, or `None` where the text does not parse.
pub uninterp spec fn chrono_parse(text: Seq<char>, format: Seq<char>) -> Option<DateTimeParts>;

/// The two groups of the first match of the regular expression `pattern` in
/// `text`, or `None` where the pattern is not valid, nothing matches, or one
/// of the two groups took no part in the match.
pub uninterp spec fn regex_capture_pair(pattern: Seq<char>, text: Seq<char>) -> Option<
    (Seq<char>, Seq<char>),
>;

/// The text that the EXIF data in the image `data` shows for the field
/// `DateTimeOriginal` of the primary image, or `None` where the data cannot be
/// read or hold no such field.
pub uninterp spec fn exif_original_text(data: Seq<u8>) -> Option<Seq<char>>;

/// Calls `chrono::NaiveDateTime::parse_from_str` and reads the fields of the
/// result through `Datelike` and `Timelike`. The outcome depends on the two
/// strings alone; the contract gives it the name `chrono_parse`.
#[verifier::external_body]
fn parse_naive(text: &str, format: &str) -> (r: Option<DateTimeParts>)
    ensures
        r == chrono_parse(text@, format@),
{
    let t = chrono::NaiveDateTime::parse_from_str(text, format).ok()?;
    Some(
        DateTimeParts {
            year: chrono::Datelike::year(&t),
            month: chrono::Datelike::month(&t),
            day: chrono::Datelike::day(&t),
            hour: chrono::Timelike::hour(&t),
            minute: chrono::Timelike::minute(&t),
            second: chrono::Timelike::second(&t),
            nanosecond: chrono::Timelike::nanosecond(&t),
        },
    )
}

/// Makes a date with `chrono::NaiveDate::from_ymd_opt`, adds the time of day
/// with `NaiveDate::and_hms_nano_opt`, and writes both with
/// `NaiveDateTime::format` under `%Y%m%d_%H%M%S`. The contract claims that
/// parts in range make a date and time, and that it is written as the year in
/// four digits and month, day, hour, minute and second in two digits each,
/// with `_` between day and hour and a leap second written as 60.
#[verifier::external_body]
fn format_compact(p: DateTimeParts) -> (r: Option<String>)
    ensures
        parts_in_range(p) ==> r is Some && r->0@ == compact_text(moment_of(p)->0),
{
    let date = chrono::NaiveDate::from_ymd_opt(p.year, p.month, p.day)?;
    let moment = date.and_hms_nano_opt(p.hour, p.minute, p.second, p.nanosecond)?;
    Some(moment.format("%Y%m%d_%H%M%S").to_string())
}

/// Compiles `pattern` with `regex::Regex::new`, takes the first match in
/// `text` with `Regex::captures`, and hands out its groups 1 and 2. The
/// outcome depends on the two strings alone; the contract gives it the name
/// `regex_capture_pair`.
#[verifier::external_body]
fn capture_pair(pattern: &str, text: &str) -> (r: Option<(String, String)>)
    ensures
        match r {
            Some(p) => regex_capture_pair(pattern@, text@) == Some((p.0@, p.1@)),
            None => regex_capture_pair(pattern@, text@) is None,
        },
{
    let found = regex::Regex::new(pattern).ok()?.captures(text)?;
    Some((found.get(1)?.as_str().to_string(), found.get(2)?.as_str().to_string()))
}

/// Reads the EXIF data of an image held in memory with
/// `exif::Reader::read_from_container`, looks up `DateTimeOriginal` of the
/// primary image with `Exif::get_field`, and renders its value with
/// `Value::display_as`. The outcome depends on the bytes alone; the contract
/// gives it the name `exif_original_text`.
#[verifier::external_body]
fn read_original_text(data: &[u8]) -> (r: Option<String>)
    ensures
        match r {
            Some(t) => exif_original_text(data@) == Some(t@),
            None => exif_original_text(data@) is None,
        },
{
    let found = exif::Reader::new().read_from_container(&mut std::io::Cursor::new(data)).ok()?;
    let field = found.get_field(exif::Tag::DateTimeOriginal, exif::In::PRIMARY)?;
    Some(field.value.display_as(exif::Tag::DateTimeOriginal).to_string())
}

/// The moment that `text` gives under `format`: what `chrono` parses, where
/// its fields are in range.
pub open spec fn parsed_moment(text: Seq<char>, format: Seq<char>) -> Option<Moment> {
    match chrono_parse(text, format) {
        Some(p) => moment_of(p),
        None => None,
    }
}

/// The moment that EXIF text gives: it is written `YYYY-MM-DD HH:MM:SS`.
pub open spec fn exif_text_moment(text: Seq<char>) -> Option<Moment> {
    parsed_moment(text, "%Y-%m-%d %H:%M:%S"@)
}

/// The moment that the digits of a date and of a time give together.
pub open spec fn digits_moment(date: Seq<char>, time: Seq<char>) -> Option<Moment> {
    parsed_moment(date + time, "%Y%m%d%H%M%S"@)
}

/// The moment recorded in the EXIF data of an image.
pub open spec fn exif_moment(data: Seq<u8>) -> Option<Moment> {
    match exif_original_text(data) {
        Some(text) => exif_text_moment(text),
        None => None,
    }
}

/// The moment written in a file stem: the first run of eight digits, an
/// optional `-` or `_`, and six digits, read as date and time.
pub open spec fn filename_moment(stem: Seq<char>) -> Option<Moment> {
    match regex_capture_pair("(\\d{8})[-_]?(\\d{6})"@, stem) {
        Some(pair) => digits_moment(pair.0, pair.1),
        None => None,
    }
}

/// Parses `text` under the `chrono` format `format`.
pub fn parse_timestamp(text: &str, format: &str) -> (r: Option<Timestamp>)
    ensures
        moment_of_option(r) == parsed_moment(text@, format@),
{
    match parse_naive(text, format) {
        Some(p) => Timestamp::from_parts(p),
        None => None,
    }
}

/// The timestamp that the text of an EXIF date field gives.
pub fn timestamp_from_exif_text(text: &str) -> (r: Option<Timestamp>)
    ensures
        moment_of_option(r) == exif_text_moment(text@),
{
    parse_timestamp(text, "%Y-%m-%d %H:%M:%S")
}

/// The timestamp that eight digits of a date and six of a time give.
pub fn timestamp_from_digits(date: &str, time: &str) -> (r: Option<Timestamp>)
    ensures
        moment_of_option(r) == digits_moment(date@, time@),
{
    let mut joined = chars_of(date);
    let tail = chars_of(time);
    push_chars(&mut joined, &tail);
    let joined = string_of(&joined);
    parse_timestamp(joined.as_str(), "%Y%m%d%H%M%S")
}

/// The timestamp in the EXIF data of the image `data`, the content of a file.
pub fn extract_timestamp_from_exif(data: &[u8]) -> (r: Option<Timestamp>)
    ensures
        moment_of_option(r) == exif_moment(data@),
{
    match read_original_text(data) {
        Some(text) => timestamp_from_exif_text(text.as_str()),
        None => None,
    }
}

/// The timestamp written in a file stem.
pub fn extract_datetime_from_filename(stem: &str) -> (r: Option<Timestamp>)
    ensures
        moment_of_option(r) == filename_moment(stem@),
{
    match capture_pair("(\\d{8})[-_]?(\\d{6})", stem) {
        Some(pair) => timestamp_from_digits(pair.0.as_str(), pair.1.as_str()),
        None => None,
    }
}

} // verus!
