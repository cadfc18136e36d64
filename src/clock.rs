use vstd::prelude::*;

verus! {

/// Every timestamp that chrono can represent lies strictly between
/// `-TIMESTAMP_BOUND` and `TIMESTAMP_BOUND`: its supported range runs from
/// the year -262143 to the year 262142, fewer than 2^43 seconds on either
/// side of the Unix epoch.
pub const TIMESTAMP_BOUND: i64 = 0x800_0000_0000;

/// Relies on chrono's `From<SystemTime> for DateTime<Utc>` and
/// `DateTime::timestamp`: the system clock's reading as whole seconds since
/// the Unix epoch, negative for a reading before it. The conversion succeeds
/// for every reading inside chrono's range.
#[verifier::external_body]
pub(crate) fn now_timestamp() -> (r: i64)
    ensures
        -TIMESTAMP_BOUND < r < TIMESTAMP_BOUND,
{
    chrono::DateTime::<chrono::Utc>::from(std::time::SystemTime::now()).timestamp()
}

} // verus!
