//! Publication dates of feed items.

use vstd::prelude::*;

verus! {

/// The instant, in seconds since the Unix epoch, of an RFC 2822 date as
/// `chrono` reads it, or none where `chrono` rejects the text.
pub uninterp spec fn rfc2822_seconds(s: Seq<char>) -> Option<i64>;

/// Relies on `chrono::DateTime::parse_from_rfc2822`, and on
/// `DateTime::timestamp` for the seconds since the epoch of the instant read.
#[verifier::external_body]
pub(crate) fn parse_rfc2822(s: &str) -> (r: Option<i64>)
    ensures
        r == rfc2822_seconds(s@),
{
    match chrono::DateTime::parse_from_rfc2822(s) {
        Ok(d) => Some(d.timestamp()),
        Err(_) => None,
    }
}

} // verus!
