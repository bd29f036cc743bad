use vstd::prelude::*;

verus! {

/// Seconds since the Unix epoch, read from the system clock.
///
/// Calls `std::time::SystemTime::now` and `duration_since(UNIX_EPOCH)`;
/// a clock set before the epoch reads as 0 (`unwrap_or_default`). Nothing
/// is promised of the value: it is the time.
#[verifier::external_body]
pub(crate) fn now_unix_secs() -> (t: u64)
{
    std::time::SystemTime::now()
        .duration_since(std::time::UNIX_EPOCH)
        .unwrap_or_default()
        .as_secs()
}

/// Milliseconds since the Unix epoch, read from the system clock, saturating
/// at `u64::MAX`.
///
/// Calls `std::time::SystemTime::now`; nothing is promised of the value.
#[verifier::external_body]
pub(crate) fn now_unix_millis() -> (t: u64)
{
    let d = std::time::SystemTime::now()
        .duration_since(std::time::UNIX_EPOCH)
        .unwrap_or_default();
    u64::try_from(d.as_millis()).unwrap_or(u64::MAX)
}

} // verus!
