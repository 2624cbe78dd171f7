use vstd::prelude::*;
use crate::robot::backtester::funding_carry::{funding_bucket_index, sorted_stamps};
use crate::types::{Candle, CandleView, candles_view};

verus! {

/// The bars of several series, as views.
pub open spec fn series_view(series: Seq<Vec<Candle>>) -> Seq<Seq<CandleView>> {
    series.map_values(|v: Vec<Candle>| candles_view(v@))
}

/// Some bar of some series is at time `t`.
pub open spec fn on_some_series(s: Seq<Seq<CandleView>>, t: i64) -> bool {
    exists|j: int, i: int| 0 <= j < s.len() && 0 <= i < s[j].len() && (#[trigger] s[j][i]).timestamp == t
}

/// Every time comes later than the one before it.
pub open spec fn strictly_increasing(g: Seq<i64>) -> bool {
    forall|a: int, b: int| 0 <= a < b < g.len() ==> g[a] < g[b]
}

/// `grid` is the union time grid of the series: each time at which some series
/// has a bar, once, in increasing order.
pub open spec fn is_union_grid(s: Seq<Seq<CandleView>>, grid: Seq<i64>) -> bool {
    &&& strictly_increasing(grid)
    &&& forall|t: i64| grid.contains(t) <==> on_some_series(s, t)
}

/// Position of the last bar of `v` at time `t`, if it has one.
pub open spec fn last_at(v: Seq<CandleView>, t: i64) -> Option<int>
    decreases v.len(),
{
    if v.len() == 0 {
        None
    } else if v.last().timestamp == t {
        Some(v.len() - 1)
    } else {
        last_at(v.drop_last(), t)
    }
}

/// Where `t` lies in a strictly increasing grid: the number of grid times before
/// it (the same search that books funding payments to bars).
fn grid_position(grid: &Vec<i64>, t: i64) -> (r: usize)
    requires
        strictly_increasing(grid@),
    ensures
        r <= grid@.len(),
        forall|k: int| 0 <= k < r ==> grid@[k] < t,
        forall|k: int| r <= k < grid@.len() ==> grid@[k] >= t,
{
    assert(sorted_stamps(grid@)) by {
        assert forall|a: int, b: int| 0 <= a <= b < grid@.len() implies grid@[a] <= grid@[b] by {
            if a < b {
                assert(grid@[a] < grid@[b]);
            }
        }
    }
    funding_bucket_index(grid.as_slice(), t)
}

/// The union time grid of several series of bars (see `is_union_grid`).
pub fn union_time_grid(series: &Vec<Vec<Candle>>) -> (grid: Vec<i64>)
    ensures
        is_union_grid(series_view(series@), grid@),
{
    let ghost s = series_view(series@);
    let mut grid: Vec<i64> = Vec::new();
    let mut j: usize = 0;
    while j < series.len()
        invariant
            s == series_view(series@),
            0 <= j <= series@.len(),
            strictly_increasing(grid@),
            forall|t: i64| grid@.contains(t) <==> on_some_series(s.take(j as int), t),
        decreases series@.len() - j,
    {
        let v = &series[j];
        assert(s[j as int] == candles_view(v@));
        let mut i: usize = 0;
        while i < v.len()
            invariant
                s == series_view(series@),
                0 <= j < series@.len(),
                v == series@[j as int],
                s[j as int] == candles_view(v@),
                0 <= i <= v@.len(),
                strictly_increasing(grid@),
                forall|t: i64| grid@.contains(t) <==> (on_some_series(s.take(j as int), t) || exists|i2: int|
                    0 <= i2 < i && (#[trigger] v@[i2]).timestamp == t),
            decreases v@.len() - i,
        {
            let t = v[i].timestamp;
            let p = grid_position(&grid, t);
            let ghost g0 = grid@;
            if p < grid.len() && grid[p] == t {
                assert(g0.contains(t));
                assert forall|x: i64| grid@.contains(x) <==> (g0.contains(x) || x == t) by {
                }
            } else {
                grid.insert(p, t);
                proof {
                    assert(grid@ =~= g0.insert(p as int, t));
                    assert forall|a: int, b: int| 0 <= a < b < grid@.len() implies grid@[a] < grid@[b] by {
                        if b < p {
                            assert(grid@[a] == g0[a] && grid@[b] == g0[b]);
                        } else if b == p {
                            assert(grid@[a] == g0[a]);
                        } else if a == p {
                            assert(grid@[b] == g0[b - 1]);
                            assert(g0[b - 1] >= t);
                            assert(g0[p as int] != t);
                            if b - 1 > p {
                                assert(g0[p as int] < g0[b - 1]);
                            }
                        } else if a < p {
                            assert(grid@[a] == g0[a] && grid@[b] == g0[b - 1]);
                        } else {
                            assert(grid@[a] == g0[a - 1] && grid@[b] == g0[b - 1]);
                        }
                    }
                    assert forall|x: i64| grid@.contains(x) <==> (g0.contains(x) || x == t) by {
                        if grid@.contains(x) {
                            let m = choose|m: int| 0 <= m < grid@.len() && grid@[m] == x;
                            if m < p {
                                assert(g0[m] == x);
                            } else if m > p {
                                assert(g0[m - 1] == x);
                            }
                        }
                        if g0.contains(x) {
                            let m = choose|m: int| 0 <= m < g0.len() && g0[m] == x;
                            if m < p {
                                assert(grid@[m] == x);
                            } else {
                                assert(grid@[m + 1] == x);
                            }
                        }
                        if x == t {
                            assert(grid@[p as int] == x);
                        }
                    }
                }
            }
            proof {
                assert forall|x: i64| grid@.contains(x) <==> (on_some_series(s.take(j as int), x) || exists|i2: int|
                    0 <= i2 < i + 1 && (#[trigger] v@[i2]).timestamp == x) by {
                    if exists|i2: int| 0 <= i2 < i && (#[trigger] v@[i2]).timestamp == x {
                        let w = choose|i2: int| 0 <= i2 < i && (#[trigger] v@[i2]).timestamp == x;
                        assert(0 <= w < i + 1 && v@[w].timestamp == x);
                    }
                    if exists|i2: int| 0 <= i2 < i + 1 && (#[trigger] v@[i2]).timestamp == x {
                        let w = choose|i2: int| 0 <= i2 < i + 1 && (#[trigger] v@[i2]).timestamp == x;
                        if w < i {
                            assert(0 <= w < i && v@[w].timestamp == x);
                        } else {
                            assert(x == t);
                        }
                    }
                    if x == t {
                        assert(0 <= i < i + 1 && v@[i as int].timestamp == x);
                    }
                    assert(g0.contains(x) <==> (on_some_series(s.take(j as int), x) || exists|i2: int|
                        0 <= i2 < i && (#[trigger] v@[i2]).timestamp == x));
                    assert(grid@.contains(x) <==> (g0.contains(x) || x == t));
                }
            }
            i = i + 1;
        }
        proof {
            assert forall|x: i64| grid@.contains(x) <==> on_some_series(s.take(j as int + 1), x) by {
                let sj = s.take(j as int + 1);
                if on_some_series(sj, x) {
                    let (j2, i2) = choose|j2: int, i2: int| 0 <= j2 < sj.len() && 0 <= i2 < sj[j2].len() && (#[trigger] sj[j2][i2]).timestamp == x;
                    if j2 < j {
                        assert(s.take(j as int)[j2][i2] == sj[j2][i2]);
                        assert(on_some_series(s.take(j as int), x));
                    } else {
                        assert(candles_view(v@)[i2] == v@[i2]@);
                        assert(v@[i2].timestamp == x);
                    }
                }
                if on_some_series(s.take(j as int), x) {
                    let (j2, i2) = choose|j2: int, i2: int| 0 <= j2 < s.take(j as int).len() && 0 <= i2 < s.take(j as int)[j2].len() && (#[trigger] s.take(j as int)[j2][i2]).timestamp == x;
                    assert(sj[j2][i2] == s.take(j as int)[j2][i2]);
                }
                if exists|i2: int| 0 <= i2 < v@.len() && (#[trigger] v@[i2]).timestamp == x {
                    let i2 = choose|i2: int| 0 <= i2 < v@.len() && (#[trigger] v@[i2]).timestamp == x;
                    assert(candles_view(v@)[i2] == v@[i2]@);
                    assert(sj[j as int][i2].timestamp == x);
                }
            }
        }
        j = j + 1;
    }
    proof {
        assert(s.take(series@.len() as int) =~= s);
    }
    grid
}

/// `o` is the position `e` names (both absent, or the same position).
pub open spec fn same_position(o: Option<usize>, e: Option<int>) -> bool {
    match (o, e) {
        (Some(a), Some(b)) => a == b,
        (None, None) => true,
        _ => false,
    }
}

/// For one series, per grid time, the position of its last bar at that time.
fn series_positions(v: &Vec<Candle>, grid: &Vec<i64>) -> (col: Vec<Option<usize>>)
    requires
        strictly_increasing(grid@),
        forall|i: int| 0 <= i < v@.len() ==> grid@.contains(#[trigger] v@[i].timestamp),
    ensures
        col@.len() == grid@.len(),
        forall|b: int| 0 <= b < grid@.len() ==> same_position(#[trigger] col@[b], last_at(candles_view(v@), grid@[b])),
{
    let ghost cv = candles_view(v@);
    let mut col: Vec<Option<usize>> = Vec::new();
    let mut b: usize = 0;
    while b < grid.len()
        invariant
            0 <= b <= grid@.len(),
            col@.len() == b,
            forall|k: int| 0 <= k < b ==> #[trigger] col@[k] is None,
        decreases grid@.len() - b,
    {
        col.push(None);
        b = b + 1;
    }
    let mut i: usize = 0;
    while i < v.len()
        invariant
            cv == candles_view(v@),
            strictly_increasing(grid@),
            forall|i3: int| 0 <= i3 < v@.len() ==> grid@.contains(#[trigger] v@[i3].timestamp),
            0 <= i <= v@.len(),
            col@.len() == grid@.len(),
            forall|k: int| 0 <= k < grid@.len() ==> same_position(#[trigger] col@[k], last_at(cv.take(i as int), grid@[k])),
        decreases v@.len() - i,
    {
        let t = v[i].timestamp;
        assert(grid@.contains(v@[i as int].timestamp));
        let p = grid_position(grid, t);
        proof {
            let m = choose|m: int| 0 <= m < grid@.len() && grid@[m] == t;
            assert(m >= p);
            if m > p {
                assert(grid@[p as int] < grid@[m]);
            }
        }
        let ghost c0 = col@;
        col.set(p, Some(i));
        proof {
            assert(cv.take(i as int + 1).drop_last() =~= cv.take(i as int));
            assert(cv.take(i as int + 1).last() == v@[i as int]@);
            assert forall|k: int| 0 <= k < grid@.len() implies same_position(#[trigger] col@[k], last_at(cv.take(i as int + 1), grid@[k])) by {
                if k != p {
                    assert(col@[k] == c0[k]);
                    if k < p {
                        assert(grid@[k] < t);
                    } else {
                        assert(grid@[k] > grid@[p as int]);
                    }
                }
            }
        }
        i = i + 1;
    }
    proof {
        assert(cv.take(v@.len() as int) =~= cv);
    }
    col
}

/// For each grid time and each series, the position of that series' last bar at
/// that time (`None` where the series has no bar then).
pub fn grid_positions(series: &Vec<Vec<Candle>>, grid: &Vec<i64>) -> (r: Vec<Vec<Option<usize>>>)
    requires
        is_union_grid(series_view(series@), grid@),
    ensures
        r@.len() == grid@.len(),
        forall|b: int| 0 <= b < grid@.len() ==> (#[trigger] r@[b])@.len() == series@.len(),
        forall|b: int, j: int| 0 <= b < grid@.len() && 0 <= j < series@.len() ==> same_position(
            #[trigger] r@[b]@[j],
            last_at(series_view(series@)[j], grid@[b]),
        ),
{
    let ghost s = series_view(series@);
    let mut cols: Vec<Vec<Option<usize>>> = Vec::new();
    let mut j: usize = 0;
    while j < series.len()
        invariant
            s == series_view(series@),
            is_union_grid(s, grid@),
            0 <= j <= series@.len(),
            cols@.len() == j,
            forall|j2: int| 0 <= j2 < j ==> (#[trigger] cols@[j2])@.len() == grid@.len(),
            forall|j2: int, b: int| 0 <= j2 < j && 0 <= b < grid@.len() ==> same_position(
                #[trigger] cols@[j2]@[b],
                last_at(s[j2], grid@[b]),
            ),
        decreases series@.len() - j,
    {
        let v = &series[j];
        assert(s[j as int] == candles_view(v@));
        assert forall|i: int| 0 <= i < v@.len() implies grid@.contains(#[trigger] v@[i].timestamp) by {
            assert(s[j as int][i] == v@[i]@);
            assert(on_some_series(s, v@[i].timestamp));
        }
        let col = series_positions(v, grid);
        cols.push(col);
        j = j + 1;
    }
    let mut rows: Vec<Vec<Option<usize>>> = Vec::new();
    let mut b: usize = 0;
    while b < grid.len()
        invariant
            s == series_view(series@),
            cols@.len() == series@.len(),
            forall|j2: int| 0 <= j2 < series@.len() ==> (#[trigger] cols@[j2])@.len() == grid@.len(),
            forall|j2: int, b2: int| 0 <= j2 < series@.len() && 0 <= b2 < grid@.len() ==> same_position(
                #[trigger] cols@[j2]@[b2],
                last_at(s[j2], grid@[b2]),
            ),
            0 <= b <= grid@.len(),
            rows@.len() == b,
            forall|b2: int| 0 <= b2 < b ==> (#[trigger] rows@[b2])@.len() == series@.len(),
            forall|b2: int, j2: int| 0 <= b2 < b && 0 <= j2 < series@.len() ==> same_position(
                #[trigger] rows@[b2]@[j2],
                last_at(s[j2], grid@[b2]),
            ),
        decreases grid@.len() - b,
    {
        let mut row: Vec<Option<usize>> = Vec::new();
        let mut k: usize = 0;
        while k < cols.len()
            invariant
                cols@.len() == series@.len(),
                forall|j2: int| 0 <= j2 < series@.len() ==> (#[trigger] cols@[j2])@.len() == grid@.len(),
                0 <= b < grid@.len(),
                0 <= k <= cols@.len(),
                row@.len() == k,
                forall|j2: int| 0 <= j2 < k ==> #[trigger] row@[j2] == cols@[j2]@[b as int],
            decreases cols@.len() - k,
        {
            row.push(cols[k][b]);
            k = k + 1;
        }
        rows.push(row);
        proof {
            assert forall|b2: int, j2: int| 0 <= b2 < b + 1 && 0 <= j2 < series@.len() implies same_position(
                #[trigger] rows@[b2]@[j2],
                last_at(s[j2], grid@[b2]),
            ) by {
                if b2 == b {
                    assert(rows@[b2]@[j2] == cols@[j2]@[b as int]);
                }
            }
        }
        b = b + 1;
    }
    rows
}

/// `last_at` names a bar of `v` at time `t`, and the last one.
pub proof fn lemma_last_at(v: Seq<CandleView>, t: i64)
    ensures
        last_at(v, t) matches Some(i) ==> 0 <= i < v.len() && v[i].timestamp == t && forall|k: int| i < k < v.len() ==> #[trigger] v[k].timestamp != t,
        last_at(v, t) is None ==> forall|k: int| 0 <= k < v.len() ==> #[trigger] v[k].timestamp != t,
    decreases v.len(),
{
    if v.len() > 0 {
        let w = v.drop_last();
        lemma_last_at(w, t);
        if v.last().timestamp != t {
            assert(last_at(v, t) == last_at(w, t));
            assert forall|k: int| 0 <= k < v.len() && #[trigger] v[k].timestamp == t implies k < v.len() - 1 && w[k].timestamp == t by {
            }
            match last_at(w, t) {
                Some(i) => {
                    assert(v[i] == w[i]);
                },
                None => {},
            }
        }
    }
}

/// Two strictly increasing sequences with the same members are equal.
proof fn lemma_increasing_same_members(a: Seq<i64>, b: Seq<i64>)
    requires
        strictly_increasing(a),
        strictly_increasing(b),
        forall|x: i64| a.contains(x) <==> b.contains(x),
    ensures
        a == b,
    decreases a.len() + b.len(),
{
    if a.len() == 0 {
        if b.len() > 0 {
            assert(b.contains(b[0]));
        }
        assert(a =~= b);
    } else if b.len() == 0 {
        assert(a.contains(a[0]));
    } else {
        let la = a.len() - 1;
        let lb = b.len() - 1;
        let x = a[la];
        let y = b[lb];
        assert(a.contains(x) && b.contains(y));
        let m = choose|m: int| 0 <= m < b.len() && b[m] == x;
        let n = choose|n: int| 0 <= n < a.len() && a[n] == y;
        if m < lb {
            assert(b[m] < b[lb]);
        }
        if n < la {
            assert(a[n] < a[la]);
        }
        assert(x == y);
        let a2 = a.drop_last();
        let b2 = b.drop_last();
        assert forall|z: i64| a2.contains(z) <==> b2.contains(z) by {
            if a2.contains(z) {
                let i = choose|i: int| 0 <= i < a2.len() && a2[i] == z;
                assert(a[i] < a[la]);
                assert(b.contains(z));
                let k = choose|k: int| 0 <= k < b.len() && b[k] == z;
                assert(k != lb);
                assert(b2[k] == z);
            }
            if b2.contains(z) {
                let i = choose|i: int| 0 <= i < b2.len() && b2[i] == z;
                assert(b[i] < b[lb]);
                assert(a.contains(z));
                let k = choose|k: int| 0 <= k < a.len() && a[k] == z;
                assert(k != la);
                assert(a2[k] == z);
            }
        }
        lemma_increasing_same_members(a2, b2);
        assert(a =~= a2.push(x));
        assert(b =~= b2.push(y));
    }
}

/// There is only one union time grid of a set of series.
pub proof fn law_union_grid_unique(s: Seq<Seq<CandleView>>, a: Seq<i64>, b: Seq<i64>)
    requires
        is_union_grid(s, a),
        is_union_grid(s, b),
    ensures
        a == b,
{
    lemma_increasing_same_members(a, b);
}

/// The union time grid of the series (the one sequence of `is_union_grid`).
pub open spec fn union_grid_of(s: Seq<Seq<CandleView>>) -> Seq<i64> {
    choose|g: Seq<i64>| is_union_grid(s, g)
}

/// The close of series `v` at time `t`: that of its last bar then, if it has one.
pub open spec fn close_at(v: Seq<CandleView>, t: i64) -> Option<i64> {
    match last_at(v, t) {
        Some(i) => Some(v[i].close),
        None => None,
    }
}

/// The bar of series `v` at time `t`: its last bar then, if it has one.
pub open spec fn bar_at(v: Seq<CandleView>, t: i64) -> Option<CandleView> {
    match last_at(v, t) {
        Some(i) => Some(v[i]),
        None => None,
    }
}

/// A bar, if there is one, as a view.
pub open spec fn opt_bar_view(o: Option<Candle>) -> Option<CandleView> {
    match o {
        Some(c) => Some(c@),
        None => None,
    }
}

/// Rows of a matrix, as sequences.
pub open spec fn rows_view<T>(m: Seq<Vec<T>>) -> Seq<Seq<T>> {
    m.map_values(|row: Vec<T>| row@)
}

/// Closes of the series on their union time grid: per grid time, per series.
pub open spec fn aligned_closes_spec(s: Seq<Seq<CandleView>>) -> Seq<Seq<Option<i64>>> {
    let g = union_grid_of(s);
    Seq::new(g.len(), |b: int| Seq::new(s.len(), |j: int| close_at(s[j], g[b])))
}

/// Bars of the series on their union time grid: per grid time, per series.
pub open spec fn aligned_bars_spec(s: Seq<Seq<CandleView>>) -> Seq<Seq<Option<CandleView>>> {
    let g = union_grid_of(s);
    Seq::new(g.len(), |b: int| Seq::new(s.len(), |j: int| bar_at(s[j], g[b])))
}


} // verus!
