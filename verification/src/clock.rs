//! The current time and random numbers, from `chrono` and `rand`. Nothing is
//! promised of their values beyond what every outcome satisfies.
use vstd::prelude::*;
use rand::Rng;

verus! {

/// The current UTC time as an RFC 3339 string (`chrono::Utc::now().to_rfc3339()`).
/// Its value depends on the clock, so the contract says nothing about it.
#[verifier::external_body]
pub fn now_rfc3339() -> (r: String) {
    chrono::Utc::now().to_rfc3339()
}

/// Milliseconds since the Unix epoch (`chrono::Utc::now().timestamp_millis()`).
/// Its value depends on the clock, so the contract says nothing about it.
#[verifier::external_body]
pub fn now_millis() -> (r: i64) {
    chrono::Utc::now().timestamp_millis()
}

/// Whether `chrono::DateTime::parse_from_rfc3339` accepts the text.
pub uninterp spec fn rfc3339_valid(s: Seq<char>) -> bool;

/// Whole seconds elapsed from the RFC 3339 time `s` to now
/// (`Utc::now().signed_duration_since(parsed).num_seconds()`), or `None` when
/// `chrono::DateTime::parse_from_rfc3339` refuses `s`. The contract ties
/// only whether it parses to `s`; the number of seconds depends on the clock
/// and is left unstated.
#[verifier::external_body]
pub fn seconds_since_rfc3339(s: &str) -> (r: Option<i64>)
    ensures
        r is Some == rfc3339_valid(s@),
{
    match chrono::DateTime::parse_from_rfc3339(s) {
        Ok(t) => Some(chrono::Utc::now().signed_duration_since(t).num_seconds()),
        Err(_) => None,
    }
}

/// A random number in `0..n` (`rand::thread_rng().gen_range(0..n)`, which
/// panics on an empty range, hence `n > 0`).
#[verifier::external_body]
pub fn random_below(n: u32) -> (r: u32)
    requires
        n > 0,
    ensures
        r < n,
{
    rand::thread_rng().gen_range(0..n)
}

} // verus!
