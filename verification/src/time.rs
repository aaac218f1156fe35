//! Points in time, as the message store records them.

use vstd::prelude::*;

verus! {

/// A point in time: the number of non-leap nanoseconds since
/// 1970-01-01 00:00:00 UTC.
#[derive(Clone, Copy, Debug, PartialEq, Eq, Structural)]
pub struct Timestamp {
    pub nanos: i64,
}

/// The text that chrono's `Display` for `NaiveDateTime` gives for the UTC
/// date and time that lies `nanos` nanoseconds after the Unix epoch: the
/// format `%Y-%m-%d %H:%M:%S%.f`.
pub uninterp spec fn timestamp_text(nanos: i64) -> Seq<char>;

/// Calls `chrono::DateTime::from_timestamp_nanos`, which accepts every
/// `i64`, and renders the naive UTC date and time of the result with
/// chrono's `Display`. Trusted: the result is the text named by
/// `timestamp_text`, which depends on `nanos` alone.
#[verifier::external_body]
fn render_nanos(nanos: i64) -> (text: String)
    ensures
        text@ == timestamp_text(nanos),
{
    chrono::DateTime::from_timestamp_nanos(nanos).naive_utc().to_string()
}

impl Timestamp {
    /// The date and time in the form `2016-11-15 07:39:24`, with a
    /// fraction of a second behind it where there is one.
    pub fn to_string(&self) -> (text: String)
        ensures
            text@ == timestamp_text(self.nanos),
    {
        render_nanos(self.nanos)
    }
}

} // verus!
