//! Instants of UTC.

use chrono::TimeZone;
use vstd::prelude::*;

verus! {

/// The first second, in Unix time, that an instant can have: the start of the year -262143.
pub const MIN_SECS: i64 = -8_334_601_228_800;

/// The last second, in Unix time, that an instant can have: the end of the year 262142.
pub const MAX_SECS: i64 = 8_210_266_876_799;

/// The greatest number of hours that a span of time can have.
pub const MAX_HOURS: i64 = 2_562_047_788_015;

/// An instant of UTC: whole seconds of Unix time, and the nanoseconds since the last of them.
///
/// During a leap second the nanoseconds run on to two thousand million.
#[derive(Clone, Copy, Debug, PartialEq, Eq, Structural)]
pub struct Timestamp {
    pub secs: i64,
    pub nanos: u32,
}

/// Why a text is not an instant.
#[derive(Clone, Copy, Debug, PartialEq, Eq, Structural)]
pub enum ParseFailure {
    /// A field is out of its range.
    OutOfRange,
    /// No instant has these fields.
    Impossible,
    /// Fields are missing.
    NotEnough,
    /// A character does not belong where it stands.
    Invalid,
    /// The text ends too early.
    TooShort,
    /// Text is left over.
    TooLong,
    /// The format itself is at fault.
    BadFormat,
    /// None of the other reasons.
    Other,
}

/// Whether an instant can have this second of Unix time.
pub open spec fn representable_secs(secs: int) -> bool {
    MIN_SECS <= secs <= MAX_SECS
}

impl Timestamp {
    /// Whether these are the seconds and nanoseconds of some instant.
    pub open spec fn valid(self) -> bool {
        representable_secs(self.secs as int) && self.nanos < 2_000_000_000
    }

    /// Whether this instant comes before another.
    pub open spec fn spec_before(self, other: Timestamp) -> bool {
        self.secs < other.secs || (self.secs == other.secs && self.nanos < other.nanos)
    }

    /// Whether this instant comes before another.
    #[verifier::when_used_as_spec(spec_before)]
    pub fn before(self, other: Timestamp) -> (r: bool)
        ensures
            r == self.spec_before(other),
    {
        self.secs < other.secs || (self.secs == other.secs && self.nanos < other.nanos)
    }
}

/// What `chrono::DateTime::parse_from_rfc3339` reads in a text, moved to UTC: the seconds and
/// nanoseconds of the instant, or why there is none.
pub uninterp spec fn rfc3339_instant(text: Seq<char>) -> Result<(i64, u32), ParseFailure>;

/// `chrono::DateTime::parse_from_rfc3339`, with the instant moved to UTC.
///
/// Nothing more is claimed of it than that the text alone decides what comes back, and that an
/// instant that comes back is a valid one. Which texts are instants, and which instants they
/// are, is not said here.
#[verifier::external_body]
pub(crate) fn parse_rfc3339(text: &str) -> (r: Result<Timestamp, ParseFailure>)
    ensures
        match r {
            Ok(ts) => ts.valid() && rfc3339_instant(text@) == Ok::<(i64, u32), ParseFailure>(
                (ts.secs, ts.nanos),
            ),
            Err(e) => rfc3339_instant(text@) == Err::<(i64, u32), ParseFailure>(e),
        },
{
    match chrono::DateTime::parse_from_rfc3339(text) {
        Ok(t) => Ok(Timestamp { secs: t.timestamp(), nanos: t.timestamp_subsec_nanos() }),
        Err(e) => Err(match e.kind() {
            chrono::format::ParseErrorKind::OutOfRange => ParseFailure::OutOfRange,
            chrono::format::ParseErrorKind::Impossible => ParseFailure::Impossible,
            chrono::format::ParseErrorKind::NotEnough => ParseFailure::NotEnough,
            chrono::format::ParseErrorKind::Invalid => ParseFailure::Invalid,
            chrono::format::ParseErrorKind::TooShort => ParseFailure::TooShort,
            chrono::format::ParseErrorKind::TooLong => ParseFailure::TooLong,
            chrono::format::ParseErrorKind::BadFormat => ParseFailure::BadFormat,
            _ => ParseFailure::Other,
        }),
    }
}

/// `chrono::TimeZone::timestamp_opt` of `chrono::Utc`, with no nanoseconds: the instant at a
/// second of Unix time, where that second lies within the years that chrono can hold.
#[verifier::external_body]
pub(crate) fn unix_instant(secs: i64) -> (r: Option<Timestamp>)
    ensures
        r == (if representable_secs(secs as int) {
            Some(Timestamp { secs, nanos: 0 })
        } else {
            None
        }),
{
    match chrono::Utc.timestamp_opt(secs, 0).single() {
        Some(t) => Some(Timestamp { secs: t.timestamp(), nanos: t.timestamp_subsec_nanos() }),
        None => None,
    }
}

/// `chrono::TimeDelta::hours`, taken in seconds: sixty times sixty to the hour. It panics on
/// more hours than a span of time can have, either way.
#[verifier::external_body]
pub(crate) fn hours_in_seconds(hours: i64) -> (secs: i64)
    requires
        -MAX_HOURS <= hours <= MAX_HOURS,
    ensures
        secs == hours * 3600,
{
    chrono::TimeDelta::hours(hours).num_seconds()
}

} // verus!
