//! Trusted access to the wall clock. Every result depends on the moment of
//! the call, so the contracts state only the ranges that the clock library
//! documents; the verified logic takes these values as plain arguments.

use vstd::prelude::*;

verus! {

/// Relies on chrono's `Local::now` and the `Datelike` accessors `day`,
/// `month` and `year`: the current local calendar date, with the day of
/// month in 1..=31, the month number in 1..=12, and the year unconstrained.
/// chrono's `now` panics on a system clock set before the Unix epoch; the
/// call takes no input, so no precondition can exclude that machine state.
#[verifier::external_body]
pub fn local_today() -> (r: (u8, u8, i32))
    ensures
        1 <= r.0 <= 31,
        1 <= r.1 <= 12,
{
    let now = chrono::Local::now();
    (
        chrono::Datelike::day(&now) as u8,
        chrono::Datelike::month(&now) as u8,
        chrono::Datelike::year(&now),
    )
}

/// Relies on chrono's `Local::now` and the `Timelike` accessors `hour` and
/// `minute`: the current local time of day, hour in 0..=23, minute in 0..=59.
/// chrono's `now` panics on a system clock set before the Unix epoch; the
/// call takes no input, so no precondition can exclude that machine state.
#[verifier::external_body]
pub fn local_now_hm() -> (r: (u8, u8))
    ensures
        r.0 < 24,
        r.1 < 60,
{
    let now = chrono::Local::now();
    (chrono::Timelike::hour(&now) as u8, chrono::Timelike::minute(&now) as u8)
}

/// Relies on chrono's `Utc::now` and the `Datelike` accessors `day` and
/// `month`: the current UTC day of month in 1..=31 and month in 1..=12.
/// chrono's `now` panics on a system clock set before the Unix epoch; the
/// call takes no input, so no precondition can exclude that machine state.
#[verifier::external_body]
pub fn utc_today() -> (r: (u8, u8))
    ensures
        1 <= r.0 <= 31,
        1 <= r.1 <= 12,
{
    let now = chrono::Utc::now();
    (chrono::Datelike::day(&now) as u8, chrono::Datelike::month(&now) as u8)
}

} // verus!
