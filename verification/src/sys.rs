//! What the store and the token service take from the world: fresh
//! identifiers and the time.
use vstd::prelude::*;

verus! {

#[verifier::external_type_specification]
#[verifier::external_body]
pub struct ExInstant(std::time::Instant);

/// A fresh random identifier: `uuid::Uuid::new_v4`, written out by its
/// `Display` impl in the hyphenated form (36 characters). Which identifier
/// comes back is left open.
#[verifier::external_body]
pub fn new_uuid() -> (r: String)
    ensures
        r@.len() == 36,
{
    uuid::Uuid::new_v4().to_string()
}

/// The current time as RFC 3339 text: `chrono::Utc::now().to_rfc3339()`.
/// Which time comes back is left open; the text reads back with
/// `DateTime::parse_from_rfc3339`.
#[verifier::external_body]
pub fn now_rfc3339() -> (r: String)
    ensures
        rfc3339_instant_of(r@) is Some,
{
    chrono::Utc::now().to_rfc3339()
}

/// A reading of the monotonic clock: `std::time::Instant::now`.
#[verifier::external_body]
pub fn instant_now() -> (r: std::time::Instant)
{
    std::time::Instant::now()
}

/// Nanoseconds since `origin` by the monotonic clock:
/// `origin.elapsed().as_nanos()`. How many is left open.
#[verifier::external_body]
pub fn nanos_since(origin: &std::time::Instant) -> (r: u128)
{
    origin.elapsed().as_nanos()
}

/// The instant an RFC 3339 text names, as seconds since the Unix epoch and
/// nanoseconds within the second, if it parses.
pub uninterp spec fn rfc3339_instant_of(text: Seq<char>) -> Option<(int, int)>;

/// Parses RFC 3339 text: `chrono::DateTime::parse_from_rfc3339`, read back
/// with `timestamp` and `timestamp_subsec_nanos`. The result is named, not
/// stated: `None` exactly when chrono reports a parse error.
#[verifier::external_body]
pub fn rfc3339_instant(text: &str) -> (r: Option<(i64, u32)>)
    ensures
        match r {
            Some((s, n)) => rfc3339_instant_of(text@) == Some((s as int, n as int)),
            None => rfc3339_instant_of(text@) is None,
        },
{
    match chrono::DateTime::parse_from_rfc3339(text) {
        Ok(d) => Some((d.timestamp(), d.timestamp_subsec_nanos())),
        Err(_) => None,
    }
}

} // verus!
