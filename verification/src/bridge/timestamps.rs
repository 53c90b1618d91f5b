//! Calendar dates of timestamps.
use chrono::TimeZone;
use vstd::prelude::*;

use crate::dedup::detect::text_option;

verus! {

/// A point in time in Coordinated Universal Time as text, in a format; `None`
/// where the calendar does not reach that far.
pub uninterp spec fn utc_text(secs: i64, nanos: u32, format: Seq<char>) -> Option<Seq<char>>;

/// The format with date, time and nanoseconds.
pub open spec fn full_format() -> Seq<char> {
    "%Y-%m-%d %H:%M:%S.%f UTC"@
}

/// The format with month, day and time.
pub open spec fn short_format() -> Seq<char> {
    "%b %e %H:%M:%S"@
}

/// `chrono::Utc.timestamp_opt(secs, nanos).single()` and, where there is such
/// a point in time, `DateTime::format` with a format that `chrono` accepts.
/// The claim is that the text depends on the three arguments alone.
#[verifier::external_body]
pub(crate) fn format_utc(secs: i64, nanos: u32, format: &str) -> (r: Option<String>)
    requires
        format@ == full_format() || format@ == short_format(),
    ensures
        text_option(r) == utc_text(secs, nanos, format@),
{
    chrono::Utc.timestamp_opt(secs, nanos).single().map(|ts| ts.format(format).to_string())
}

} // verus!
