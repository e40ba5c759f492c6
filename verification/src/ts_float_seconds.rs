//! Upstream gives a post's creation time as a number of seconds since the
//! epoch, written with a fraction.

use crate::model::Timestamp;
use vstd::prelude::*;

verus! {

/// Reads a creation time from the whole seconds of the number that upstream
/// gives.
#[derive(Clone, Copy, Debug)]
pub struct SecondsTimestampVisitor;

impl SecondsTimestampVisitor {
    /// What the visitor expects to read.
    pub open spec fn expected() -> Seq<char> {
        "a unix timestamp in seconds"@
    }

    /// Names what the visitor expects to read.
    pub fn expecting(&self) -> (text: String)
        ensures
            text@ == Self::expected(),
    {
        "a unix timestamp in seconds".to_owned()
    }

    /// The instant that lies `value` whole seconds after the epoch.
    pub fn visit_seconds(self, value: i64) -> (t: Timestamp)
        ensures
            t.secs == value,
            t.nanos == 0,
    {
        Timestamp::from_secs(value)
    }
}

} // verus!
