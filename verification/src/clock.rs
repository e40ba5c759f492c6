//! Calendar time, as `chrono` reads and writes it.

use crate::model::Timestamp;
use vstd::prelude::*;

verus! {

/// The RFC 3339 text of the instant `secs` whole seconds after the epoch in
/// UTC, or `None` where the instant lies outside the years that `chrono`
/// can hold.
pub uninterp spec fn rfc3339_text(secs: int) -> Option<Seq<char>>;

/// `chrono::DateTime::to_rfc3339`, on the UTC instant that
/// `chrono::DateTime::from_timestamp` makes of `secs` and no nanoseconds.
/// `None` where `from_timestamp` finds the seconds out of range.
#[verifier::external_body]
pub(crate) fn format_rfc3339(secs: i64) -> (text: Option<String>)
    ensures
        match text {
            Some(s) => rfc3339_text(secs as int) == Some(s@),
            None => rfc3339_text(secs as int) is None,
        },
{
    chrono::DateTime::from_timestamp(secs, 0).map(|t| t.to_rfc3339())
}

/// `chrono::Utc::now`, as seconds since the epoch and the nanoseconds that
/// follow them. Nothing is claimed of the instant: it is whatever the
/// system clock says. `chrono` panics where that clock stands before the
/// epoch, which nothing in a call can rule out.
#[verifier::external_body]
pub(crate) fn now() -> Timestamp {
    let t = chrono::Utc::now();
    Timestamp { secs: t.timestamp(), nanos: t.timestamp_subsec_nanos() }
}

} // verus!
