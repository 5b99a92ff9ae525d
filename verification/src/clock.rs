//! Calendar time, from the `chrono` crate.

use vstd::prelude::*;

verus! {

/// The day alone: `2024-06-01`.
pub const DAY: &'static str = "%Y-%m-%d";

/// The day and the time of day, as a log has it: `2024-06-01 12:30:00`.
pub const LOG_TIME: &'static str = "%Y-%m-%d %H:%M:%S";

/// The day and the time of day, for use in a name: `2024.06.01-12.30.00`.
pub const NAME_TIME: &'static str = "%Y.%m.%d-%H.%M.%S";

/// A moment in universal time, written in a `chrono` format; nothing where the moment is out of
/// the calendar's range.
pub uninterp spec fn utc_text(seconds: int, format: Seq<char>) -> Option<Seq<char>>;

/// Whether this library writes moments in the format.
pub open spec fn is_format(format: Seq<char>) -> bool {
    format == DAY@ || format == LOG_TIME@ || format == NAME_TIME@
}

/// `chrono::DateTime::from_timestamp`, then `DateTime::format`: the moment that many seconds
/// after the start of 1970, written in the format.
#[verifier::external_body]
pub(crate) fn format_utc(seconds: i64, format: &str) -> (r: Option<String>)
    requires
        is_format(format@),
    ensures
        match utc_text(seconds as int, format@) {
            Some(t) => r is Some && r->0@ == t,
            None => r is None,
        },
{
    chrono::DateTime::from_timestamp(seconds, 0).map(|t| t.format(format).to_string())
}

} // verus!
