//! The dates of the gateway's timestamps.
//!
//! The gateway reports when a device was created and last seen as texts such
//! as `2024-05-01T12:30:00Z`. They are read by `chrono`; of a timestamp only
//! its calendar date matters here.

use chrono::Datelike;
use vstd::prelude::*;

verus! {

/// A calendar date.
#[derive(Clone, Copy, Debug, PartialEq, Eq, Structural)]
pub struct Date {
    pub year: i32,
    pub month: u32,
    pub day: u32,
}

impl Date {
    /// Whether this date is strictly earlier than `other`.
    pub open spec fn before(self, other: Date) -> bool {
        ||| self.year < other.year
        ||| self.year == other.year && self.month < other.month
        ||| self.year == other.year && self.month == other.month && self.day < other.day
    }

    /// The date of the given year, month and day.
    pub fn new(year: i32, month: u32, day: u32) -> (date: Date)
        ensures
            date == (Date { year, month, day }),
    {
        Date { year, month, day }
    }

    /// Whether this date is strictly earlier than `other`.
    pub fn is_before(&self, other: &Date) -> (earlier: bool)
        ensures
            earlier == self.before(*other),
    {
        self.year < other.year || (self.year == other.year && (self.month < other.month || (
        self.month == other.month && self.day < other.day)))
    }
}

/// The format of the gateway's timestamps, in `chrono`'s notation.
pub open spec fn timestamp_format() -> Seq<char> {
    "%Y-%m-%dT%H:%M:%SZ"@
}

/// The year, month and day that `chrono` reads from `text` under `format`,
/// if it accepts the text.
pub uninterp spec fn chrono_date(text: Seq<char>, format: Seq<char>) -> Option<(int, int, int)>;

/// The date of the timestamp `text`, if it is one.
pub open spec fn timestamp_date(text: Seq<char>) -> Option<Date> {
    match chrono_date(text, timestamp_format()) {
        Some((year, month, day)) => Some(
            Date { year: year as i32, month: month as u32, day: day as u32 },
        ),
        None => None,
    }
}

/// `chrono::NaiveDateTime::parse_from_str` on `text` and `format`, then the
/// year, month and day of the date it read. The result is what `chrono` makes
/// of these two texts, and nothing else is claimed of it.
#[verifier::external_body]
fn read_date(text: &str, format: &str) -> (r: Option<(i32, u32, u32)>)
    ensures
        match r {
            Some(d) => chrono_date(text@, format@) == Some((d.0 as int, d.1 as int, d.2 as int)),
            None => chrono_date(text@, format@) is None,
        },
{
    match chrono::NaiveDateTime::parse_from_str(text, format) {
        Ok(stamp) => Some((stamp.date().year(), stamp.date().month(), stamp.date().day())),
        Err(_) => None,
    }
}

/// Reads the date of a timestamp of the form `YYYY-MM-DDTHH:MM:SSZ`.
pub fn parse_timestamp(text: &str) -> (date: Option<Date>)
    ensures
        date == timestamp_date(text@),
{
    match read_date(text, "%Y-%m-%dT%H:%M:%SZ") {
        Some((year, month, day)) => Some(Date { year, month, day }),
        None => None,
    }
}

/// The date by which a device's age is judged: when it was last seen, else
/// when it was created.
pub open spec fn reference_date(last_seen: Option<Date>, created_at: Option<Date>) -> Option<Date> {
    match last_seen {
        Some(date) => Some(date),
        None => created_at,
    }
}

/// Whether a device with these two dates counts as older than `cutoff`: its
/// reference date exists and is strictly earlier.
pub open spec fn stale(last_seen: Option<Date>, created_at: Option<Date>, cutoff: Date) -> bool {
    match reference_date(last_seen, created_at) {
        Some(date) => date.before(cutoff),
        None => false,
    }
}

/// Whether a device with these two dates counts as older than `cutoff`.
pub fn is_stale(last_seen: Option<Date>, created_at: Option<Date>, cutoff: &Date) -> (old: bool)
    ensures
        old == stale(last_seen, created_at, *cutoff),
{
    match last_seen {
        Some(date) => date.is_before(cutoff),
        None => match created_at {
            Some(date) => date.is_before(cutoff),
            None => false,
        },
    }
}

} // verus!
