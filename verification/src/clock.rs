//! Calendar days, through the `chrono` crate.
//!
//! Days are counted as `chrono` counts them in `Datelike::num_days_from_ce`:
//! January 1 of year 1 of the proleptic Gregorian calendar is day 1.
use chrono::Datelike;
use vstd::prelude::*;

verus! {

/// The UTC calendar day (counted from the common era) of the instant that
/// `chrono::DateTime::parse_from_rfc3339` reads from `s`; `None` when it
/// rejects `s`.
pub uninterp spec fn rfc3339_utc_day(s: Seq<char>) -> Option<i32>;

/// `chrono::DateTime::parse_from_rfc3339`, with the parsed instant converted to
/// its UTC calendar day (`with_timezone(&Utc).date_naive().num_days_from_ce()`).
/// The contract claims the result is `rfc3339_utc_day` of the input.
#[verifier::external_body]
pub(crate) fn parse_rfc3339_utc_day(s: &str) -> (r: Option<i32>)
    ensures
        r == rfc3339_utc_day(s@),
{
    match chrono::DateTime::parse_from_rfc3339(s) {
        Ok(dt) => Some(dt.with_timezone(&chrono::Utc).date_naive().num_days_from_ce()),
        Err(_) => None,
    }
}

/// The local calendar day of 1969-12-31, counted from the common era: the
/// earliest day `chrono::Local::now` can show (`Utc::now` refuses a clock
/// before the Unix epoch, and a local offset is less than a day).
pub open spec fn earliest_local_day() -> int {
    719162
}

/// `chrono::Local::now`, as the local calendar day counted from the common era.
/// It depends on the clock and the time zone of the machine; the contract
/// claims only that it is not before 1969-12-31 (`Utc::now` panics on a clock
/// before 1970-01-01, and `Local` shifts by less than a day).
#[verifier::external_body]
pub(crate) fn local_today() -> (r: i32)
    ensures
        r >= earliest_local_day(),
{
    chrono::Local::now().date_naive().num_days_from_ce()
}

} // verus!
