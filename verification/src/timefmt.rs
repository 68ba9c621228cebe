//! Timestamp text at the adapter boundary, rendered and parsed through
//! chrono.

use vstd::prelude::*;

verus! {

/// The RFC 3339 rendering of an instant given in seconds since the epoch;
/// instants outside chrono's representable range render as the default
/// (epoch) datetime.
pub uninterp spec fn rfc3339_of(t: int) -> Seq<char>;

/// The instant, in seconds since the epoch, that an RFC 3339 text denotes,
/// where it parses.
pub uninterp spec fn rfc3339_seconds(s: Seq<char>) -> Option<int>;

/// Relies on chrono's DateTime::from_timestamp and to_rfc3339: the rendering
/// is determined by the instant alone.
#[verifier::external_body]
pub(crate) fn format_rfc3339(t: i64) -> (r: String)
    ensures
        r@ == rfc3339_of(t as int),
{
    chrono::DateTime::from_timestamp(t, 0).unwrap_or_default().to_rfc3339()
}

/// Relies on chrono's DateTime::parse_from_rfc3339 and timestamp: whether
/// the text parses, and the instant it denotes, depend on the text alone.
#[verifier::external_body]
pub(crate) fn parse_rfc3339(s: &str) -> (r: Option<i64>)
    ensures
        match r {
            Some(t) => rfc3339_seconds(s@) == Some(t as int),
            None => rfc3339_seconds(s@) is None,
        },
{
    chrono::DateTime::parse_from_rfc3339(s).ok().map(|dt| dt.timestamp())
}

} // verus!
