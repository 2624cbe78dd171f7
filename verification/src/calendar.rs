use vstd::prelude::*;

verus! {

/// What `chrono::DateTime::<Utc>::from_timestamp(secs, 0)` gives for a count of
/// seconds, read back as epoch milliseconds (`None` outside chrono's date range).
pub uninterp spec fn utc_secs_millis(secs: i64) -> Option<i64>;

/// What `chrono::DateTime::<Utc>::from_timestamp_millis(ms)` gives, read back as
/// epoch milliseconds (`None` outside chrono's date range).
pub uninterp spec fn utc_millis(ms: i64) -> Option<i64>;

/// What `chrono::DateTime::parse_from_rfc3339(s)` gives, as epoch milliseconds
/// (`None` when `s` is not an RFC 3339 date and time).
pub uninterp spec fn parsed_rfc3339_millis(s: Seq<char>) -> Option<i64>;

/// What `chrono::NaiveDate::parse_from_str(s, fmt)` gives, taken at midnight UTC
/// and read as epoch milliseconds (`None` when `s` does not match `fmt`).
pub uninterp spec fn parsed_date_millis(s: Seq<char>, fmt: Seq<char>) -> Option<i64>;

/// What `chrono::NaiveDateTime::parse_from_str(s, fmt)` gives, taken as UTC and
/// read as epoch milliseconds (`None` when `s` does not match `fmt`).
pub uninterp spec fn parsed_datetime_millis(s: Seq<char>, fmt: Seq<char>) -> Option<i64>;

/// `chrono::DateTime::from_timestamp(secs, 0)`, as epoch milliseconds. chrono
/// documents `None` for an out-of-range count of seconds; the range reaches far
/// beyond the years 1 to 9999, so every instant of those years gives `Some`, and a
/// `Some` holds `secs` in milliseconds. Where exactly the range ends is not stated.
#[verifier::external_body]
pub(crate) fn utc_from_secs(secs: i64) -> (r: Option<i64>)
    ensures
        r == utc_secs_millis(secs),
        r matches Some(ms) ==> ms == secs * 1000,
        -62_135_596_800 <= secs <= 253_402_300_799 ==> r is Some,
{
    chrono::DateTime::from_timestamp(secs, 0).map(|d| d.timestamp_millis())
}

/// `chrono::DateTime::from_timestamp_millis(ms)`, read back as epoch milliseconds.
/// chrono documents `None` for an out-of-range count and a round trip through
/// `timestamp_millis` otherwise; every instant of the years 1 to 9999 is in range.
/// Where exactly the range ends is not stated.
#[verifier::external_body]
pub(crate) fn utc_from_millis(ms: i64) -> (r: Option<i64>)
    ensures
        r == utc_millis(ms),
        r matches Some(x) ==> x == ms,
        -62_135_596_800_000 <= ms <= 253_402_300_799_999 ==> r is Some,
{
    chrono::DateTime::from_timestamp_millis(ms).map(|d| d.timestamp_millis())
}

/// `chrono::DateTime::parse_from_rfc3339(s)`, the instant read as epoch
/// milliseconds. The result is named `parsed_rfc3339_millis`; the RFC 3339 grammar
/// is not restated here.
#[verifier::external_body]
pub(crate) fn parse_rfc3339_millis(s: &str) -> (r: Option<i64>)
    ensures
        r == parsed_rfc3339_millis(s@),
{
    chrono::DateTime::parse_from_rfc3339(s).ok().map(|d| d.timestamp_millis())
}

/// `chrono::NaiveDate::parse_from_str(s, fmt)`, the date taken at midnight UTC and
/// read as epoch milliseconds. The result is named `parsed_date_millis`; how chrono
/// reads a format is not restated here.
#[verifier::external_body]
pub(crate) fn parse_date_millis(s: &str, fmt: &str) -> (r: Option<i64>)
    ensures
        r == parsed_date_millis(s@, fmt@),
{
    chrono::NaiveDate::parse_from_str(s, fmt).ok().map(|d| d.and_time(chrono::NaiveTime::MIN).and_utc().timestamp_millis())
}

/// `chrono::NaiveDateTime::parse_from_str(s, fmt)`, taken as UTC and read as
/// epoch milliseconds. The result is named `parsed_datetime_millis`; how chrono
/// reads a format is not restated here.
#[verifier::external_body]
pub(crate) fn parse_datetime_millis(s: &str, fmt: &str) -> (r: Option<i64>)
    ensures
        r == parsed_datetime_millis(s@, fmt@),
{
    chrono::NaiveDateTime::parse_from_str(s, fmt).ok().map(|d| d.and_utc().timestamp_millis())
}

} // verus!
