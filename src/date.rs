//! Commit timestamps: an instant and the fixed UTC offset it was recorded in.
use vstd::prelude::*;

verus! {

/// The number of seconds in a day.
pub const SECONDS_PER_DAY: i128 = 86400;

/// A commit's date: seconds since the Unix epoch, and the offset east of UTC
/// in seconds that the date was written in.
#[derive(Debug, Clone, Copy, PartialEq, Eq, Structural)]
pub struct CommitDate {
    /// Seconds since 1970-01-01 00:00:00 UTC.
    pub timestamp: i64,
    /// Seconds east of UTC of the recorded offset.
    pub offset: i32,
}

/// The instant and the offset, in seconds, that a date text reads as under the
/// pattern `%a %b %e %T %Y %z`, or `None` where it does not match.
pub uninterp spec fn date_of(text: Seq<char>) -> Option<(int, int)>;

/// The error that `chrono` gives for a date text that does not match.
#[verifier::external_type_specification]
#[verifier::external_body]
pub struct ExChronoParseError(chrono::ParseError);

/// Relies on `chrono::DateTime::parse_from_str` with the pattern
/// `%a %b %e %T %Y %z` (e.g. `Thu Jan 2 15:04:05 2025 +0000`): the result
/// depends on the text alone; its `timestamp` and the offset's
/// `local_minus_utc` are read out.
#[verifier::external_body]
pub(crate) fn parse_date(text: &str) -> (r: Result<CommitDate, chrono::ParseError>)
    ensures
        match r {
            Ok(d) => date_of(text@) == Some((d.timestamp as int, d.offset as int)),
            Err(_) => date_of(text@) is None,
        },
{
    match chrono::DateTime::parse_from_str(text, "%a %b %e %T %Y %z") {
        Ok(d) => Ok(CommitDate { timestamp: d.timestamp(), offset: d.offset().local_minus_utc() }),
        Err(e) => Err(e),
    }
}

/// The calendar day, counted from 1970-01-01, that an instant falls on at a
/// given offset.
pub open spec fn day_of(timestamp: int, offset: int) -> int {
    (timestamp + offset) / (SECONDS_PER_DAY as int)
}

impl CommitDate {
    /// The calendar day, counted from 1970-01-01, that this date falls on in
    /// its own offset.
    pub fn day(&self) -> (r: i64)
        ensures
            r == day_of(self.timestamp as int, self.offset as int),
    {
        let local: i128 = self.timestamp as i128 + self.offset as i128;
        let d: i128 = if local >= 0 {
            local / 86400
        } else {
            let q: i128 = (-local + 86399) / 86400;
            assert(-q == (local as int) / 86400);
            -q
        };
        d as i64
    }
}

} // verus!
