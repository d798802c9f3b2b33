//! The wall clock.

use vstd::prelude::*;
use crate::models::Timestamp;

verus! {

/// Reads the current time with `chrono::Utc::now` and splits it with
/// `DateTime::timestamp` and `DateTime::timestamp_subsec_nanos`. Trusted:
/// the reading differs from call to call; what is claimed is that its
/// sub-second part is below one second, since `now` builds every reading
/// from the sub-second part of a `Duration` and never within a leap
/// second.
#[verifier::external_body]
pub(crate) fn now() -> (t: Timestamp)
    ensures
        t.nanos < 1_000_000_000,
{
    let reading = chrono::Utc::now();
    Timestamp { seconds: reading.timestamp(), nanos: reading.timestamp_subsec_nanos() }
}

} // verus!
