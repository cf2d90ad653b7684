//! Points in time, as the explorer reports them and as the ledger and the price
//! oracle want them written.

use std::fmt::Write;
use vstd::prelude::*;

verus! {

/// The pattern of the calendar day in a request to the price oracle: day,
/// month and year, each in digits, with hyphens between them.
pub const DAY_PATTERN: &'static str = "%d-%m-%Y";

/// The last second of the year 9999. From the start of 1970 up to this second
/// `chrono` has a date for every second, with a year of four digits.
pub const END_OF_9999: i64 = 253_402_300_799;

/// What `chrono` writes for the date and time of day, in UTC, that lie
/// `seconds` after the start of 1970; `None` where `chrono` has no date for
/// them.
pub uninterp spec fn utc_date_time(seconds: i64) -> Option<Seq<char>>;

/// What `chrono` writes for that date and time under the given `strftime`
/// pattern; `None` where it has no date for them or refuses the pattern.
pub uninterp spec fn utc_formatted(seconds: i64, pattern: Seq<char>) -> Option<Seq<char>>;

/// A second of UTC with its two notations.
#[derive(Clone, Debug, PartialEq, Eq)]
pub struct Timestamp {
    /// Seconds since the start of 1970.
    pub seconds: i64,
    /// Date and time of day, as the ledger records them.
    pub date_time: String,
    /// The calendar day, as the price oracle is asked for it.
    pub day: String,
}

/// A [`Timestamp`] in specifications.
pub struct TimestampView {
    pub seconds: i64,
    pub date_time: Seq<char>,
    pub day: Seq<char>,
}

impl View for Timestamp {
    type V = TimestampView;

    open spec fn view(&self) -> TimestampView {
        TimestampView { seconds: self.seconds, date_time: self.date_time@, day: self.day@ }
    }
}

/// The timestamp of the given second, where `chrono` has both notations of it.
pub open spec fn timestamp_at(seconds: i64) -> Option<TimestampView> {
    match (utc_date_time(seconds), utc_formatted(seconds, DAY_PATTERN@)) {
        (Some(date_time), Some(day)) => Some(TimestampView { seconds, date_time, day }),
        _ => None,
    }
}

/// `chrono::DateTime::from_timestamp`, then `Display` of the `NaiveDateTime`
/// in UTC: the text depends on `seconds` alone, and there is none where
/// `from_timestamp` returns `None`, which it does not from the start of 1970 to
/// the end of 9999.
#[verifier::external_body]
fn date_time_text(seconds: i64) -> (text: Option<String>)
    ensures
        match text {
            Some(t) => utc_date_time(seconds) == Some(t@),
            None => utc_date_time(seconds).is_none(),
        },
        0 <= seconds <= END_OF_9999 ==> text is Some,
{
    let moment = chrono::DateTime::from_timestamp(seconds, 0)?.naive_utc();
    Some(moment.to_string())
}

/// `chrono::DateTime::from_timestamp`, then `NaiveDateTime::format` in UTC
/// with the given pattern: the text depends on `seconds` and the pattern
/// alone, and there is none where `from_timestamp` returns `None` or writing
/// under the pattern fails. Neither happens from the start of 1970 to the end
/// of 9999 under the pattern of the day, which asks for the day, the month and
/// the year of a date.
#[verifier::external_body]
fn formatted_text(seconds: i64, pattern: &str) -> (text: Option<String>)
    ensures
        match text {
            Some(t) => utc_formatted(seconds, pattern@) == Some(t@),
            None => utc_formatted(seconds, pattern@).is_none(),
        },
        0 <= seconds <= END_OF_9999 && pattern@ == DAY_PATTERN@ ==> text is Some,
{
    let moment = chrono::DateTime::from_timestamp(seconds, 0)?.naive_utc();
    let mut text = String::new();
    write!(text, "{}", moment.format(pattern)).ok()?;
    Some(text)
}

impl Timestamp {
    /// The timestamp of the given second; `None` where the calendar has no
    /// notation for it. It has one for every second from the start of 1970 to
    /// the end of 9999.
    pub fn from_seconds(seconds: i64) -> (stamp: Option<Timestamp>)
        ensures
            match stamp {
                Some(t) => timestamp_at(seconds) == Some(t@),
                None => timestamp_at(seconds).is_none(),
            },
            0 <= seconds <= END_OF_9999 ==> stamp is Some,
    {
        let date_time = match date_time_text(seconds) {
            Some(text) => text,
            None => {
                return None;
            },
        };
        let day = match formatted_text(seconds, DAY_PATTERN) {
            Some(text) => text,
            None => {
                return None;
            },
        };
        Some(Timestamp { seconds, date_time, day })
    }
}

} // verus!
