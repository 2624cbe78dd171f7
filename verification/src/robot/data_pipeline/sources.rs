use vstd::prelude::*;
use crate::calendar::{
    parse_rfc3339_millis, parsed_rfc3339_millis, utc_from_millis, utc_from_secs, utc_millis, utc_secs_millis,
};
use crate::text::{parse_i64, parsed_i64};

verus! {

/// A stored number below this reads as seconds, from it on as milliseconds.
pub const SECONDS_LIMIT: i64 = 9_999_999_999;

/// The instant a stored time text names, as epoch milliseconds: an integer below
/// `SECONDS_LIMIT` counts seconds, a larger one milliseconds; other text is read
/// as RFC 3339.
pub open spec fn parse_timestamp_spec(s: Seq<char>) -> Option<i64> {
    match parsed_i64(s) {
        Some(n) => if n < SECONDS_LIMIT { utc_secs_millis(n) } else { utc_millis(n) },
        None => parsed_rfc3339_millis(s),
    }
}

/// Reads a stored time: epoch seconds, epoch milliseconds (from `SECONDS_LIMIT`
/// on) or RFC 3339 text, as epoch milliseconds.
pub fn parse_timestamp(value: &str) -> (r: Option<i64>)
    ensures
        r == parse_timestamp_spec(value@),
        match parsed_i64(value@) {
            Some(n) => {
                &&& 0 <= n < SECONDS_LIMIT ==> r == Some((n * 1000) as i64)
                &&& SECONDS_LIMIT <= n <= 253_402_300_799_999 ==> r == Some(n)
            },
            None => true,
        },
{
    match parse_i64(value) {
        Some(n) => {
            if n < SECONDS_LIMIT {
                utc_from_secs(n)
            } else {
                utc_from_millis(n)
            }
        },
        None => parse_rfc3339_millis(value),
    }
}

} // verus!
