//! The local wall clock: turning a schedule timestamp into the local
//! hour and minute that entry titles show.
use chrono::Timelike;
use vstd::prelude::*;

verus! {

/// Relies on `chrono::DateTime::from_timestamp` (`None` only for a
/// timestamp out of chrono's range) and `DateTime::with_timezone` with
/// `chrono::Local`: the reading depends on this machine's time zone, but
/// every reading is a real wall-clock time, with `hour` below 24 and
/// `minute` below 60 as chrono's `Timelike` documents.
#[verifier::external_body]
pub(crate) fn local_hour_minute(utc_secs: i64) -> (r: Option<(u8, u8)>)
    ensures
        r matches Some(hm) ==> hm.0 < 24 && hm.1 < 60,
{
    match chrono::DateTime::<chrono::Utc>::from_timestamp(utc_secs, 0) {
        Some(dt) => {
            let local = dt.with_timezone(&chrono::Local);
            Some((local.hour() as u8, local.minute() as u8))
        },
        None => None,
    }
}

} // verus!
