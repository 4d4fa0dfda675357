//! Timestamps: reading the clock and rendering modification times.
//!
//! Timestamps are seconds since the Unix epoch throughout the crate.

use vstd::prelude::*;

verus! {

/// The last second of year 9999: every timestamp the crate renders must lie
/// at or below it, so that the calendar conversion cannot fail and `%Y`
/// stays four digits.
pub const MAX_UTC_SECS: u64 = 253402300799;

/// The text `%Y-%m-%d %H:%M:%S UTC` renders `secs` as: a fixed function of
/// the seconds value alone.
pub uninterp spec fn utc_display_of(secs: int) -> Seq<u8>;

/// Relies on chrono's `DateTime::<Utc>::from_timestamp` and its `%Y-%m-%d
/// %H:%M:%S UTC` formatting: for seconds within [`MAX_UTC_SECS`] the
/// conversion succeeds, and the rendered text depends on the seconds value
/// alone (UTC only — no locale, no time zone, no clock).
#[verifier::external_body]
pub(crate) fn format_utc_timestamp(secs: u64) -> (r: Vec<u8>)
    requires
        secs <= MAX_UTC_SECS,
    ensures
        r@ == utc_display_of(secs as int),
{
    let dt = chrono::DateTime::<chrono::Utc>::from_timestamp(secs as i64, 0).unwrap();
    dt.format("%Y-%m-%d %H:%M:%S UTC").to_string().into_bytes()
}

/// Relies on chrono's `Utc::now`: the clock's seconds since the Unix epoch.
/// Nothing is assumed of the value.  On a machine whose clock is set before
/// 1970 the call itself panics inside chrono; that sits inside this trusted
/// body, outside the crate's no-panic guarantee for verified code.
#[verifier::external_body]
pub(crate) fn now_utc_secs() -> (t: u64) {
    chrono::Utc::now().timestamp() as u64
}

} // verus!
