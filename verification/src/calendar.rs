//! Calendar dates and timestamps.
//!
//! A [`Date`] is a day of the proleptic Gregorian calendar, held as its day
//! number (1 January of year 1 is day 1).  A [`Timestamp`] is a date and time
//! of day without zone, held as whole seconds since 1970-01-01 00:00:00.
//! Range checks, parsing and rendering are done by `chrono`; everything else
//! is plain integer data that the codecs can reason about.

use vstd::prelude::*;

verus! {

/// Day number of 1 January of year -262143, the earliest date `chrono` represents.
pub const MIN_DAY: i32 = -95_746_129;

/// Day number of 31 December of year 262142, the latest date `chrono` represents.
pub const MAX_DAY: i32 = 95_745_399;

/// Day number of 1970-01-01.
pub const EPOCH_DAY: i32 = 719_163;

/// Seconds in a day.
pub const SECONDS_PER_DAY: i64 = 86_400;

/// The day numbers that denote a representable date.
pub open spec fn valid_day_count(days: int) -> bool {
    MIN_DAY <= days <= MAX_DAY
}

/// The day number on which the instant `secs` seconds after the epoch falls.
pub open spec fn day_of_timestamp(secs: int) -> int {
    secs / (SECONDS_PER_DAY as int) + EPOCH_DAY
}

/// The second counts that denote a representable instant.
pub open spec fn valid_timestamp(secs: int) -> bool {
    valid_day_count(day_of_timestamp(secs))
}

/// What parsing `s` as a `YYYY-MM-DD` date yields: the day number, or the
/// parser's error message.
pub uninterp spec fn date_from_text(s: Seq<char>) -> Result<int, Seq<char>>;

/// The `YYYY-MM-DD` rendering of the date with day number `days`.
pub uninterp spec fn date_text(days: int) -> Seq<char>;

/// What parsing `s` as a `YYYY-MM-DD HH:MM:SS` date and time yields: the
/// seconds since the epoch, or the parser's error message.
pub uninterp spec fn timestamp_from_text(s: Seq<char>) -> Result<int, Seq<char>>;

/// The `YYYY-MM-DD HH:MM:SS` rendering of the instant `secs` seconds after the epoch.
pub uninterp spec fn timestamp_text(secs: int) -> Seq<char>;

/// A parser's outcome as the contracts speak of it: the number, or the
/// message's characters.
pub open spec fn parsed_view(r: Result<i64, String>) -> Result<int, Seq<char>> {
    match r {
        Ok(n) => Ok(n as int),
        Err(msg) => Err(msg@),
    }
}

/// Whether `c` is a decimal digit.
pub open spec fn is_digit(c: char) -> bool {
    '0' <= c <= '9'
}

/// A text that may be the rendering of a date: not empty, made of digits and
/// the signs `-` and `+`.
pub open spec fn date_shaped(text: Seq<char>) -> bool {
    &&& text.len() > 0
    &&& forall|i: int|
        0 <= i < text.len() ==> is_digit(#[trigger] text[i]) || text[i] == '-' || text[i] == '+'
}

/// A text that may be the rendering of a timestamp: made of digits, the signs
/// `-` and `+`, colons and spaces, with a character other than a space at
/// both of its ends.
pub open spec fn timestamp_shaped(text: Seq<char>) -> bool {
    &&& text.len() > 0
    &&& text[0] != ' '
    &&& text.last() != ' '
    &&& forall|i: int|
        0 <= i < text.len() ==> is_digit(#[trigger] text[i]) || text[i] == '-' || text[i] == '+'
            || text[i] == ':' || text[i] == ' '
}

/// Whether the rendering of the date with day number `days` is date-shaped
/// and parses back to it.  This holds of every date that has been rendered.
pub open spec fn date_renders_faithfully(days: int) -> bool {
    date_shaped(date_text(days)) && yields(date_from_text(date_text(days)), days)
}

/// Whether the rendering of the instant `secs` is timestamp-shaped and parses
/// back to it.  This holds of every timestamp that has been rendered.
pub open spec fn timestamp_renders_faithfully(secs: int) -> bool {
    timestamp_shaped(timestamp_text(secs)) && yields(
        timestamp_from_text(timestamp_text(secs)),
        secs,
    )
}

/// Whether a parser's outcome is success with the number `n`.
pub open spec fn yields(outcome: Result<int, Seq<char>>, n: int) -> bool {
    outcome matches Ok(x) && x == n
}

/// Calls `chrono::NaiveDate::from_num_days_from_ce_opt` and hands back the day
/// number of the date it made, if it made one.  Trusted: `chrono` makes a date
/// exactly of the day numbers from that of its `NaiveDate::MIN` to that of its
/// `NaiveDate::MAX`, which are `MIN_DAY` and `MAX_DAY`, and the date it makes
/// has the day number it was made of.
#[verifier::external_body]
fn chrono_date(days: i32) -> (r: Option<i32>)
    ensures
        r is Some <==> valid_day_count(days as int),
        r matches Some(d) ==> d == days,
{
    match chrono::NaiveDate::from_num_days_from_ce_opt(days) {
        Some(date) => Some(chrono::Datelike::num_days_from_ce(&date)),
        None => None,
    }
}

/// Calls `chrono::DateTime::from_timestamp` with no sub-second part and hands
/// back the second count of the instant it made, if it made one.  Trusted:
/// `chrono` splits the count into a day number (floor division by 86400, plus
/// the epoch's day number) and seconds of the day, makes an instant exactly
/// when that day is representable, and the instant has the second count it
/// was made of.
#[verifier::external_body]
fn chrono_timestamp(secs: i64) -> (r: Option<i64>)
    ensures
        r is Some <==> valid_timestamp(secs as int),
        r matches Some(t) ==> t == secs,
{
    match chrono::DateTime::from_timestamp(secs, 0) {
        Some(at) => Some(at.timestamp()),
        None => None,
    }
}

/// Calls `chrono::NaiveDate::parse_from_str` with the format `%Y-%m-%d` and
/// hands back the day number of the parsed date, or the text of the parse
/// error.  Trusted: the outcome depends on the input text alone, and a parsed
/// date is representable.
#[verifier::external_body]
fn chrono_parse_date(s: &str) -> (r: Result<i64, String>)
    ensures
        parsed_view(r) == date_from_text(s@),
        r matches Ok(days) ==> valid_day_count(days as int),
{
    match chrono::NaiveDate::parse_from_str(s, "%Y-%m-%d") {
        Ok(date) => Ok(i64::from(chrono::Datelike::num_days_from_ce(&date))),
        Err(e) => Err(e.to_string()),
    }
}

/// Rebuilds the `chrono::NaiveDate` with the given day number and renders it
/// with `format("%Y-%m-%d")`.  Trusted: the rendering depends on the day number
/// alone; it is the year, with a sign where it has more than four digits or is
/// negative, the month and the day in digits, with `-` between them; and
/// `chrono` parses it back to the same date.
#[verifier::external_body]
fn chrono_format_date(days: i32) -> (s: String)
    requires
        valid_day_count(days as int),
    ensures
        s@ == date_text(days as int),
        date_shaped(s@),
        yields(date_from_text(s@), days as int),
{
    chrono::NaiveDate::from_num_days_from_ce_opt(days).unwrap().format("%Y-%m-%d").to_string()
}

/// Calls `chrono::NaiveDateTime::parse_from_str` with the format
/// `%Y-%m-%d %H:%M:%S` and hands back the parsed instant as seconds since the
/// epoch, or the text of the parse error.  Trusted: the outcome depends on the
/// input text alone, and a parsed instant is representable.
#[verifier::external_body]
fn chrono_parse_timestamp(s: &str) -> (r: Result<i64, String>)
    ensures
        parsed_view(r) == timestamp_from_text(s@),
        r matches Ok(secs) ==> valid_timestamp(secs as int),
{
    match chrono::NaiveDateTime::parse_from_str(s, "%Y-%m-%d %H:%M:%S") {
        Ok(t) => Ok(t.and_utc().timestamp()),
        Err(e) => Err(e.to_string()),
    }
}

/// Rebuilds the `chrono` date and time that lies `secs` seconds after the
/// epoch and renders it with `format("%Y-%m-%d %H:%M:%S")`.  Trusted: the
/// rendering depends on the second count alone; it is the date as above, one
/// space, and hour, minute and second in two digits each with `:` between
/// them; and `chrono` parses it back to the same instant.
#[verifier::external_body]
fn chrono_format_timestamp(secs: i64) -> (s: String)
    requires
        valid_timestamp(secs as int),
    ensures
        s@ == timestamp_text(secs as int),
        timestamp_shaped(s@),
        yields(timestamp_from_text(s@), secs as int),
{
    chrono::DateTime::from_timestamp(secs, 0).unwrap().naive_utc().format(
        "%Y-%m-%d %H:%M:%S",
    ).to_string()
}

/// A calendar date without time or zone.
#[derive(Debug, Clone, Copy, PartialEq, Eq, Structural)]
pub struct Date {
    days: i32,
}

impl View for Date {
    type V = int;

    /// The date's day number.
    closed spec fn view(&self) -> int {
        self.days as int
    }
}

impl Date {
    /// What every value of this type satisfies.
    #[verifier::type_invariant]
    pub open spec fn in_range(self) -> bool {
        valid_day_count(self@)
    }

    /// The date with the given day number, if there is one.
    pub fn from_num_days_from_ce_opt(days: i32) -> (r: Option<Date>)
        ensures
            r is Some <==> valid_day_count(days as int),
            r matches Some(d) ==> d@ == days,
    {
        match chrono_date(days) {
            Some(days) => Some(Date { days }),
            None => None,
        }
    }

    /// 1 January 1970.
    pub fn epoch() -> (d: Date)
        ensures
            d@ == EPOCH_DAY,
    {
        Date { days: EPOCH_DAY }
    }

    /// The date's day number.
    pub fn num_days_from_ce(&self) -> (days: i32)
        ensures
            days == self@,
            valid_day_count(self@),
    {
        proof {
            use_type_invariant(self);
        }
        self.days
    }

    /// Parses a date written as `YYYY-MM-DD`.  On failure the error is the
    /// parser's message.
    pub fn parse_from_str(s: &str) -> (r: Result<Date, String>)
        ensures
            match date_from_text(s@) {
                Ok(days) => r matches Ok(d) && d@ == days && valid_day_count(days),
                Err(msg) => r matches Err(m) && m@ == msg,
            },
    {
        match chrono_parse_date(s) {
            Ok(days) => Ok(Date { days: days as i32 }),
            Err(msg) => Err(msg),
        }
    }

    /// The date written as `YYYY-MM-DD`.
    pub fn to_string(&self) -> (s: String)
        ensures
            s@ == date_text(self@),
            date_renders_faithfully(self@),
    {
        proof {
            use_type_invariant(self);
        }
        chrono_format_date(self.days)
    }
}

/// A date and time of day without zone, to the second.
#[derive(Debug, Clone, Copy, PartialEq, Eq, Structural)]
pub struct Timestamp {
    secs: i64,
}

impl View for Timestamp {
    type V = int;

    /// Seconds since 1970-01-01 00:00:00.
    closed spec fn view(&self) -> int {
        self.secs as int
    }
}

impl Timestamp {
    /// What every value of this type satisfies.
    #[verifier::type_invariant]
    pub open spec fn in_range(self) -> bool {
        valid_timestamp(self@)
    }

    /// The instant `secs` seconds after the epoch, if it is representable.
    pub fn from_timestamp(secs: i64) -> (r: Option<Timestamp>)
        ensures
            r is Some <==> valid_timestamp(secs as int),
            r matches Some(t) ==> t@ == secs,
    {
        match chrono_timestamp(secs) {
            Some(secs) => Some(Timestamp { secs }),
            None => None,
        }
    }

    /// Seconds since 1970-01-01 00:00:00.
    pub fn timestamp(&self) -> (secs: i64)
        ensures
            secs == self@,
            valid_timestamp(self@),
    {
        proof {
            use_type_invariant(self);
        }
        self.secs
    }

    /// Parses a date and time written as `YYYY-MM-DD HH:MM:SS`.  On failure
    /// the error is the parser's message.
    pub fn parse_from_str(s: &str) -> (r: Result<Timestamp, String>)
        ensures
            match timestamp_from_text(s@) {
                Ok(secs) => r matches Ok(t) && t@ == secs && valid_timestamp(secs),
                Err(msg) => r matches Err(m) && m@ == msg,
            },
    {
        match chrono_parse_timestamp(s) {
            Ok(secs) => Ok(Timestamp { secs }),
            Err(msg) => Err(msg),
        }
    }

    /// The instant written as `YYYY-MM-DD HH:MM:SS`.
    pub fn to_string(&self) -> (s: String)
        ensures
            s@ == timestamp_text(self@),
            timestamp_renders_faithfully(self@),
    {
        proof {
            use_type_invariant(self);
        }
        chrono_format_timestamp(self.secs)
    }
}

} // verus!
