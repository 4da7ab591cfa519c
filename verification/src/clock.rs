//! Epoch-seconds to epoch-milliseconds through chrono. chrono represents a
//! date-time only when its day count fits `NaiveDate`'s year range, which
//! bounds the representable epoch seconds to a fixed interval; within it the
//! millisecond count is exactly seconds * 1000.

use vstd::prelude::*;

verus! {

/// Earliest epoch-seconds value chrono can represent (00:00:00 on
/// `NaiveDate::MIN`).
pub const MIN_EPOCH_SECS: i64 = -8334601228800;

/// Latest epoch-seconds value chrono can represent (23:59:59 on
/// `NaiveDate::MAX`).
pub const MAX_EPOCH_SECS: i64 = 8210266876799;

/// Epoch-milliseconds for an epoch-seconds value: exactly seconds * 1000
/// when representable, nothing otherwise.
pub open spec fn spec_epoch_millis(secs: i64) -> Option<i64> {
    if MIN_EPOCH_SECS <= secs <= MAX_EPOCH_SECS {
        Some((secs * 1000) as i64)
    } else {
        None
    }
}

/// Relies on chrono 0.4: `Utc.timestamp_opt(secs, 0)` goes through
/// `DateTime::from_timestamp`, which is `Some` exactly when the day count
/// `secs.div_euclid(86400) + 719163` lands within `NaiveDate`'s range —
/// that is, when `secs` lies in `MIN_EPOCH_SECS..=MAX_EPOCH_SECS` — and
/// `timestamp_millis` of the result is then `secs * 1000` (the nanosecond
/// part is zero).
#[verifier::external_body]
pub(crate) fn utc_epoch_millis(secs: i64) -> (r: Option<i64>)
    ensures
        r == spec_epoch_millis(secs),
{
    match chrono::TimeZone::timestamp_opt(&chrono::Utc, secs, 0) {
        chrono::LocalResult::Single(dt) => Some(dt.timestamp_millis()),
        _ => None,
    }
}

} // verus!
