use vstd::prelude::*;
use crate::text::{ascii_case_eq, str_eq_ignore_ascii_case, str_equals};

verus! {

/// A stored bar series: its source, symbol, interval and number of bars.
pub struct CandleSeriesRef {
    pub exchange: String,
    pub market: String,
    pub symbol: String,
    pub interval: String,
    pub rows: usize,
}

/// The part of an edge-scan configuration that picks which series are scanned:
/// a least number of bars, and symbol and interval filters (empty means all).
pub struct SeriesFilter {
    pub min_rows: usize,
    pub symbol_filter: Vec<String>,
    pub interval_filter: Vec<String>,
}

impl Default for SeriesFilter {
    /// At least 400 bars (enough for the in-sample and out-of-sample parts); no
    /// symbol or interval filter.
    fn default() -> (r: Self)
        ensures
            r.min_rows == 400,
            r.symbol_filter@.len() == 0,
            r.interval_filter@.len() == 0,
    {
        SeriesFilter { min_rows: 400, symbol_filter: Vec::new(), interval_filter: Vec::new() }
    }
}

/// A series is scanned when it has enough bars, its symbol matches one of the
/// symbol filter (ignoring ASCII case) and its interval one of the interval filter
/// exactly; an empty filter lets every value through.
pub open spec fn series_passes_spec(min_rows: usize, symbols: Seq<Seq<char>>, intervals: Seq<Seq<char>>, symbol: Seq<char>, interval: Seq<char>, rows: usize) -> bool {
    &&& rows >= min_rows
    &&& symbols.len() == 0 || exists|k: int| 0 <= k < symbols.len() && ascii_case_eq(#[trigger] symbols[k], symbol)
    &&& intervals.len() == 0 || exists|k: int| 0 <= k < intervals.len() && #[trigger] intervals[k] == interval
}

/// The strings of a list, as sequences.
pub open spec fn strings_view(v: Seq<String>) -> Seq<Seq<char>> {
    v.map_values(|s: String| s@)
}

/// Whether a stored series passes the scan's filters (see `series_passes_spec`).
pub fn series_passes(cfg: &SeriesFilter, s: &CandleSeriesRef) -> (r: bool)
    ensures
        r == series_passes_spec(
            cfg.min_rows,
            strings_view(cfg.symbol_filter@),
            strings_view(cfg.interval_filter@),
            s.symbol@,
            s.interval@,
            s.rows,
        ),
{
    let ghost syms = strings_view(cfg.symbol_filter@);
    let ghost ivs = strings_view(cfg.interval_filter@);
    if s.rows < cfg.min_rows {
        return false;
    }
    if cfg.symbol_filter.len() > 0 {
        let mut found = false;
        let mut k: usize = 0;
        while k < cfg.symbol_filter.len()
            invariant
                syms == strings_view(cfg.symbol_filter@),
                0 <= k <= cfg.symbol_filter@.len(),
                found <==> exists|k2: int| 0 <= k2 < k && ascii_case_eq(#[trigger] syms[k2], s.symbol@),
            decreases cfg.symbol_filter@.len() - k,
        {
            assert(syms[k as int] == cfg.symbol_filter@[k as int]@);
            if str_eq_ignore_ascii_case(cfg.symbol_filter[k].as_str(), s.symbol.as_str()) {
                found = true;
            }
            k = k + 1;
        }
        if !found {
            return false;
        }
    }
    if cfg.interval_filter.len() > 0 {
        let mut found = false;
        let mut k: usize = 0;
        while k < cfg.interval_filter.len()
            invariant
                ivs == strings_view(cfg.interval_filter@),
                0 <= k <= cfg.interval_filter@.len(),
                found <==> exists|k2: int| 0 <= k2 < k && #[trigger] ivs[k2] == s.interval@,
            decreases cfg.interval_filter@.len() - k,
        {
            assert(ivs[k as int] == cfg.interval_filter@[k as int]@);
            if str_equals(cfg.interval_filter[k].as_str(), s.interval.as_str()) {
                found = true;
            }
            k = k + 1;
        }
        if !found {
            return false;
        }
    }
    true
}

} // verus!
