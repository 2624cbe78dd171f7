use vstd::prelude::*;

verus! {

/// `std::time::SystemTime::now().duration_since(UNIX_EPOCH)` in whole seconds; a
/// clock before the epoch (the error of `duration_since`) gives 0. The value
/// depends on the machine's clock, so nothing more is promised about it.
#[verifier::external_body]
fn system_secs_since_epoch() -> u64 {
    std::time::SystemTime::now().duration_since(std::time::UNIX_EPOCH).map(|d| d.as_secs()).unwrap_or(0)
}

/// `std::time::SystemTime::now().duration_since(UNIX_EPOCH)` in whole
/// milliseconds; a clock before the epoch gives 0. Nothing more is promised.
#[verifier::external_body]
fn system_millis_since_epoch() -> u128 {
    std::time::SystemTime::now().duration_since(std::time::UNIX_EPOCH).map(|d| d.as_millis()).unwrap_or(0)
}

/// Current time as UNIX epoch seconds: a clock before the epoch reads as 0, and a
/// reading past `i64::MAX` as `i64::MAX`, so that it always fits an `i64`.
pub fn now_epoch_secs() -> (r: u64)
    ensures
        r <= i64::MAX,
{
    let s = system_secs_since_epoch();
    if s > i64::MAX as u64 { i64::MAX as u64 } else { s }
}

/// Current time as UNIX epoch milliseconds: a clock before the epoch reads as 0,
/// and a reading past `i64::MAX` as `i64::MAX`.
pub(crate) fn now_epoch_millis() -> (r: i64)
    ensures
        r >= 0,
{
    let ms = system_millis_since_epoch();
    if ms > i64::MAX as u128 { i64::MAX } else { ms as i64 }
}

} // verus!
