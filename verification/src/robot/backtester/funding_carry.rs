use vstd::prelude::*;
use crate::robot::data_pipeline::health::wrap_i64;
use crate::robot::data_pipeline::normalizer::{DataNormalizer, interval_secs_spec};
use crate::text::{lowercase, parsed_u64};

verus! {

/// `stamps` is sorted ascending.
pub open spec fn sorted_stamps(stamps: Seq<i64>) -> bool {
    forall|i: int, j: int| 0 <= i <= j < stamps.len() ==> stamps[i] <= stamps[j]
}

/// The bar a funding payment at time `ft` is booked to: the first bar whose
/// timestamp is at or after `ft` (`stamps.len()` when `ft` is past the last bar).
/// Every bar before the result is strictly earlier than `ft`.
pub fn funding_bucket_index(stamps: &[i64], ft: i64) -> (b: usize)
    requires
        sorted_stamps(stamps@),
    ensures
        b <= stamps@.len(),
        forall|i: int| 0 <= i < b ==> stamps@[i] < ft,
        forall|i: int| b <= i < stamps@.len() ==> stamps@[i] >= ft,
{
    let mut lo: usize = 0;
    let mut hi: usize = stamps.len();
    while lo < hi
        invariant
            lo <= hi <= stamps@.len(),
            sorted_stamps(stamps@),
            forall|i: int| 0 <= i < lo ==> stamps@[i] < ft,
            forall|i: int| hi <= i < stamps@.len() ==> stamps@[i] >= ft,
        decreases hi - lo,
    {
        let mid = lo + (hi - lo) / 2;
        if stamps[mid] < ft {
            lo = mid + 1;
        } else {
            hi = mid;
        }
    }
    lo
}

/// Milliseconds per bar of an interval given its lowercase form and the raw token
/// parsed as `u64`: its seconds (at least 1) read as `i64`, times 1000.
pub open spec fn interval_ms_spec(lower: Seq<char>, parsed: Option<u64>) -> int {
    let s = interval_secs_spec(lower, parsed);
    wrap_i64(if s >= 1 { s } else { 1 }) * 1000
}

/// The millisecond length of an interval fits in `i64`.
pub open spec fn interval_ms_fits(interval: Seq<char>) -> bool {
    i64::MIN <= interval_ms_spec(lowercase(interval), parsed_u64(interval)) <= i64::MAX
}

/// Milliseconds per bar of an interval (`parse_interval`, at least 1 second).
pub fn interval_ms(interval: &str) -> (r: i64)
    requires
        interval_ms_fits(interval@),
    ensures
        r == interval_ms_spec(lowercase(interval@), parsed_u64(interval@)),
{
    let s = DataNormalizer::parse_interval(interval);
    let s1: u64 = if s >= 1 {
        s
    } else {
        1
    };
    let w: i128 = if s1 <= i64::MAX as u64 {
        s1 as i128
    } else {
        s1 as i128 - 0x1_0000_0000_0000_0000i128
    };
    (w * 1000) as i64
}

/// Milliseconds per bar of an interval, or `None` when that overflows `i64` (a
/// numeric token too large).
pub fn interval_ms_checked(interval: &str) -> (r: Option<i64>)
    ensures
        interval_ms_fits(interval@) ==> r == Some(interval_ms_spec(lowercase(interval@), parsed_u64(interval@)) as i64),
        !interval_ms_fits(interval@) ==> r is None,
{
    let s = DataNormalizer::parse_interval(interval);
    let s1: u64 = if s >= 1 {
        s
    } else {
        1
    };
    let w: i128 = if s1 <= i64::MAX as u64 {
        s1 as i128
    } else {
        s1 as i128 - 0x1_0000_0000_0000_0000i128
    };
    let ms: i128 = w * 1000;
    if ms < i64::MIN as i128 || ms > i64::MAX as i128 {
        None
    } else {
        Some(interval_ms(interval))
    }
}

} // verus!
