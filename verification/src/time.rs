//! The times of a guide.
use crate::external::{parse_timestamp, parsed_seconds};
use vstd::prelude::*;

verus! {

/// How a guide writes a time: year, month, day, hour, minute and second without anything between
/// them, then the offset from UTC, as in `20260425010000 +0200`.
pub const XMLTV_TIME_FORMAT: &'static str = "%Y%m%d%H%M%S %z";

/// The second since the Unix epoch that a time in a guide denotes.
pub open spec fn xmltv_seconds(text: Seq<char>) -> Option<i64> {
    parsed_seconds(text, XMLTV_TIME_FORMAT@)
}

/// Reads a time of a guide, as seconds since the Unix epoch.
pub fn parse_xmltv_time(text: &str) -> (seconds: Option<i64>)
    ensures
        seconds == xmltv_seconds(text@),
{
    parse_timestamp(text, XMLTV_TIME_FORMAT)
}

} // verus!
