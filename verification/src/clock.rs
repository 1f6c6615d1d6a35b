use vstd::prelude::*;
use crate::model::Stamp;

verus! {

/// A parse error of `chrono` (`chrono::ParseError`).
#[verifier::external_type_specification]
#[verifier::external_body]
pub struct ExParseError(chrono::ParseError);

/// The instant that `chrono::DateTime::parse_from_rfc3339` reads from `text`,
/// as whole seconds since the Unix epoch and nanoseconds into the second, or
/// `None` where it refuses the text.
pub uninterp spec fn rfc3339_instant(text: Seq<char>) -> Option<(i64, u32)>;

/// Reads the current time with `chrono::Local::now` and keeps its instant
/// (`timestamp`, `timestamp_subsec_nanos`) and its RFC 3339 text
/// (`to_rfc3339`). The time is not known in advance; all that is claimed is
/// chrono's documented range of the nanoseconds, which exceed 999,999,999 only
/// within a leap second. That the text reads back as the same instant is not
/// claimed.
#[verifier::external_body]
pub(crate) fn now_stamp() -> (r: Stamp)
    ensures
        r.nanos < 2_000_000_000,
{
    let now = chrono::Local::now();
    Stamp { secs: now.timestamp(), nanos: now.timestamp_subsec_nanos(), text: now.to_rfc3339() }
}

/// Calls `chrono::DateTime::parse_from_rfc3339` and keeps the instant of the
/// result (`timestamp`, `timestamp_subsec_nanos`); the time zone of the text
/// does not change the instant.
#[verifier::external_body]
pub(crate) fn parse_rfc3339(text: &str) -> (r: Result<(i64, u32), chrono::ParseError>)
    ensures
        r is Ok <==> rfc3339_instant(text@) is Some,
        r matches Ok(v) ==> rfc3339_instant(text@) == Some(v),
{
    chrono::DateTime::parse_from_rfc3339(text).map(|t| (t.timestamp(), t.timestamp_subsec_nanos()))
}

} // verus!
