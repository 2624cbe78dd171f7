use vstd::prelude::*;
use crate::text::str_equals;
use crate::types::{Candle, CandleView, candles_view};

verus! {

/// Two bars share a deduplication key: the same timestamp and, when `by_symbol`,
/// the same symbol.
pub open spec fn same_key(a: CandleView, b: CandleView, by_symbol: bool) -> bool {
    a.timestamp == b.timestamp && (by_symbol ==> a.symbol == b.symbol)
}

/// `s[k]` is the earliest bar of `s` with its key.
pub open spec fn first_of_key(s: Seq<CandleView>, k: int, by_symbol: bool) -> bool {
    &&& 0 <= k < s.len()
    &&& forall|j: int| 0 <= j < k ==> !same_key(#[trigger] s[j], s[k], by_symbol)
}

/// Position `i` of `s` comes before position `j` in time order: an earlier
/// timestamp, or the same timestamp and an earlier position (a stable order).
pub open spec fn time_before(s: Seq<CandleView>, i: int, j: int) -> bool {
    s[i].timestamp < s[j].timestamp || (s[i].timestamp == s[j].timestamp && i < j)
}

/// `ix` holds, in time order, the positions of those bars among the first `k` of
/// `s` that are the earliest of their key.
pub open spec fn firsts_upto(s: Seq<CandleView>, ix: Seq<int>, k: int, by_symbol: bool) -> bool {
    &&& forall|i: int| 0 <= i < ix.len() ==> ix[i] < k && first_of_key(s, #[trigger] ix[i], by_symbol)
    &&& forall|i: int, j: int| 0 <= i < j < ix.len() ==> time_before(s, #[trigger] ix[i], #[trigger] ix[j])
    &&& forall|p: int| 0 <= p < k && first_of_key(s, p, by_symbol) ==> #[trigger] ix.contains(p)
}

/// The positions of the bars kept by a stable time sort followed by removal of every
/// bar whose key occurred before: one entry per key, in time order. There is one
/// such sequence (`law_kept_positions_unique`).
pub open spec fn kept_positions(s: Seq<CandleView>, by_symbol: bool) -> Seq<int> {
    choose|ix: Seq<int>| firsts_upto(s, ix, s.len() as int, by_symbol)
}

/// The bars kept, in time order.
pub open spec fn sort_dedup_spec(s: Seq<CandleView>, by_symbol: bool) -> Seq<CandleView> {
    kept_positions(s, by_symbol).map_values(|k: int| s[k])
}

/// Every bar has an earliest bar of its key at or before it.
proof fn lemma_first_of_key_exists(s: Seq<CandleView>, j: int, by_symbol: bool) -> (f: int)
    requires
        0 <= j < s.len(),
    ensures
        f <= j,
        first_of_key(s, f, by_symbol),
        same_key(s[f], s[j], by_symbol),
    decreases j,
{
    if first_of_key(s, j, by_symbol) {
        j
    } else {
        let j2 = choose|j2: int| 0 <= j2 < j && same_key(#[trigger] s[j2], s[j], by_symbol);
        lemma_first_of_key_exists(s, j2, by_symbol)
    }
}

/// There is only one sequence of kept positions: two sequences that both list the
/// first bar of each key of `s` in time order are equal.
pub proof fn law_kept_positions_unique(s: Seq<CandleView>, a: Seq<int>, b: Seq<int>, by_symbol: bool)
    requires
        firsts_upto(s, a, s.len() as int, by_symbol),
        firsts_upto(s, b, s.len() as int, by_symbol),
    ensures
        a == b,
{
    lemma_same_members_equal(s, a, b);
}

/// Two time-ordered position sequences with the same members are equal.
proof fn lemma_same_members_equal(s: Seq<CandleView>, a: Seq<int>, b: Seq<int>)
    requires
        forall|i: int, j: int| 0 <= i < j < a.len() ==> time_before(s, #[trigger] a[i], #[trigger] a[j]),
        forall|i: int, j: int| 0 <= i < j < b.len() ==> time_before(s, #[trigger] b[i], #[trigger] b[j]),
        forall|p: int| a.contains(p) <==> b.contains(p),
    ensures
        a == b,
    decreases a.len() + b.len(),
{
    if a.len() == 0 {
        if b.len() > 0 {
            assert(b.contains(b[0]));
        }
        assert(a =~= b);
    } else if b.len() == 0 {
        assert(a.contains(a[0]));
    } else {
        let la = (a.len() - 1) as int;
        let lb = (b.len() - 1) as int;
        let x = a[la];
        let y = b[lb];
        assert(a.contains(x));
        assert(b.contains(y));
        let m = choose|m: int| 0 <= m < b.len() && b[m] == x;
        let n = choose|n: int| 0 <= n < a.len() && a[n] == y;
        if m < lb {
            assert(time_before(s, b[m], b[lb]));
            if n < la {
                assert(time_before(s, a[n], a[la]));
            }
        }
        assert(x == y);
        let a2 = a.drop_last();
        let b2 = b.drop_last();
        assert forall|p: int| a2.contains(p) implies b2.contains(p) by {
            let i = choose|i: int| 0 <= i < a2.len() && a2[i] == p;
            assert(a.contains(p));
            assert(time_before(s, a[i], a[la]));
            let j = choose|j: int| 0 <= j < b.len() && b[j] == p;
            if j == lb {
                assert(p == x);
            }
            assert(b2[j] == p);
        }
        assert forall|p: int| b2.contains(p) implies a2.contains(p) by {
            let j = choose|j: int| 0 <= j < b2.len() && b2[j] == p;
            assert(b.contains(p));
            assert(time_before(s, b[j], b[lb]));
            let i = choose|i: int| 0 <= i < a.len() && a[i] == p;
            if i == la {
                assert(p == y);
            }
            assert(a2[i] == p);
        }
        lemma_same_members_equal(s, a2, b2);
        assert(a =~= a2.push(x));
        assert(b =~= b2.push(y));
    }
}

/// `ix` lists every position of `s` once, in time order.
pub open spec fn time_order(s: Seq<CandleView>, ix: Seq<int>) -> bool {
    &&& ix.len() == s.len()
    &&& forall|i: int| 0 <= i < ix.len() ==> 0 <= #[trigger] ix[i] < s.len()
    &&& forall|i: int, j: int| 0 <= i < j < ix.len() ==> time_before(s, #[trigger] ix[i], #[trigger] ix[j])
    &&& forall|p: int| 0 <= p < s.len() ==> #[trigger] ix.contains(p)
}

/// The bars stably sorted by timestamp: equal timestamps keep their input order
/// (the one sequence of `time_order`, `law_time_order_unique`).
pub open spec fn time_sorted(s: Seq<CandleView>) -> Seq<CandleView> {
    let ix = choose|ix: Seq<int>| time_order(s, ix);
    ix.map_values(|k: int| s[k])
}

/// There is only one time order of a sequence of bars.
pub proof fn law_time_order_unique(s: Seq<CandleView>, a: Seq<int>, b: Seq<int>)
    requires
        time_order(s, a),
        time_order(s, b),
    ensures
        a == b,
{
    assert forall|p: int| a.contains(p) <==> b.contains(p) by {
        if a.contains(p) {
            let i = choose|i: int| 0 <= i < a.len() && a[i] == p;
            assert(0 <= a[i] < s.len());
        }
        if b.contains(p) {
            let i = choose|i: int| 0 <= i < b.len() && b[i] == p;
            assert(0 <= b[i] < s.len());
        }
    }
    lemma_same_members_equal(s, a, b);
}

/// A stable time sort keeps every bar once and orders them by timestamp, equal
/// timestamps in input order.
pub proof fn law_time_sorted_ordered(s: Seq<CandleView>)
    requires
        exists|ix: Seq<int>| time_order(s, ix),
    ensures
        time_sorted(s).len() == s.len(),
        forall|i: int, j: int| 0 <= i < j < s.len() ==> time_sorted(s)[i].timestamp <= time_sorted(s)[j].timestamp,
        forall|k: int| 0 <= k < s.len() ==> time_sorted(s).contains(#[trigger] s[k]),
{
    let ix = choose|ix: Seq<int>| time_order(s, ix);
    assert(time_order(s, ix));
    assert forall|i: int, j: int| 0 <= i < j < s.len() implies time_sorted(s)[i].timestamp <= time_sorted(s)[j].timestamp by {
        assert(time_before(s, ix[i], ix[j]));
    }
    assert forall|k: int| 0 <= k < s.len() implies time_sorted(s).contains(#[trigger] s[k]) by {
        assert(ix.contains(k));
        let i = choose|i: int| 0 <= i < ix.len() && ix[i] == k;
        assert(0 <= i < s.len());
        assert(time_sorted(s)[i] == s[k]);
    }
}

/// Stable sort of bars by timestamp.
pub fn time_sort(candles: Vec<Candle>) -> (r: Vec<Candle>)
    ensures
        candles_view(r@) == time_sorted(candles_view(candles@)),
        exists|ix: Seq<int>| time_order(candles_view(candles@), ix),
{
    let ghost s = candles_view(candles@);
    let n = candles.len();
    let mut input = candles;
    let mut out: Vec<Candle> = Vec::new();
    let ghost mut ix: Seq<int> = Seq::empty();
    let mut k: usize = 0;
    while k < n
        invariant
            n == s.len(),
            0 <= k <= n,
            candles_view(input@) == s.skip(k as int),
            input@.len() == n - k,
            out@.len() == ix.len() == k,
            forall|i: int| 0 <= i < ix.len() ==> 0 <= #[trigger] ix[i] < k,
            forall|i: int| 0 <= i < ix.len() ==> #[trigger] out@[i]@ == s[ix[i]],
            forall|i: int, j: int| 0 <= i < j < ix.len() ==> time_before(s, #[trigger] ix[i], #[trigger] ix[j]),
            forall|p: int| 0 <= p < k ==> #[trigger] ix.contains(p),
        decreases n - k,
    {
        let ghost in0 = input@;
        let x = input.remove(0);
        proof {
            assert(candles_view(in0)[0] == x@);
            assert(x@ == s[k as int]);
            assert forall|i: int| 0 <= i < input@.len() implies #[trigger] candles_view(input@)[i] == s.skip(k as int + 1)[i] by {
                assert(input@[i] == in0[i + 1]);
                assert(candles_view(in0)[i + 1] == s.skip(k as int)[i + 1]);
            }
            assert(candles_view(input@) =~= s.skip(k as int + 1));
        }
        let mut p: usize = 0;
        while p < out.len() && out[p].timestamp <= x.timestamp
            invariant
                0 <= p <= out@.len(),
                out@.len() == ix.len(),
                x@ == s[k as int],
                forall|i: int| 0 <= i < ix.len() ==> #[trigger] out@[i]@ == s[ix[i]],
                forall|i: int| 0 <= i < p ==> s[#[trigger] ix[i]].timestamp <= s[k as int].timestamp,
            decreases out@.len() - p,
        {
            assert(out@[p as int]@ == s[ix[p as int]]);
            p = p + 1;
        }
        let ghost old_ix = ix;
        let ghost old_out = out@;
        proof {
            if p < out.len() {
                assert(out@[p as int]@ == s[ix[p as int]]);
            }
        }
        out.insert(p, x);
        proof {
            ix = old_ix.insert(p as int, k as int);
            assert forall|i: int| 0 <= i < ix.len() implies #[trigger] out@[i]@ == s[ix[i]] by {
                if i < p {
                    assert(out@[i] == old_out[i] && ix[i] == old_ix[i]);
                } else if i > p {
                    assert(out@[i] == old_out[i - 1] && ix[i] == old_ix[i - 1]);
                }
            }
            assert forall|i: int| 0 <= i < ix.len() implies 0 <= #[trigger] ix[i] < k + 1 by {
                if i < p {
                    assert(ix[i] == old_ix[i]);
                } else if i > p {
                    assert(ix[i] == old_ix[i - 1]);
                }
            }
            assert forall|i: int, j: int| 0 <= i < j < ix.len() implies time_before(s, #[trigger] ix[i], #[trigger] ix[j]) by {
                if j < p {
                    assert(ix[i] == old_ix[i] && ix[j] == old_ix[j]);
                } else if j == p {
                    assert(ix[i] == old_ix[i]);
                    assert(old_ix[i] < k);
                } else if i == p {
                    assert(ix[j] == old_ix[j - 1]);
                    assert(s[old_ix[p as int]].timestamp > s[k as int].timestamp);
                    if p < j - 1 {
                        assert(time_before(s, old_ix[p as int], old_ix[j - 1]));
                    }
                } else if i < p {
                    assert(ix[i] == old_ix[i] && ix[j] == old_ix[j - 1]);
                } else {
                    assert(ix[i] == old_ix[i - 1] && ix[j] == old_ix[j - 1]);
                }
            }
            assert forall|q: int| 0 <= q < k + 1 implies #[trigger] ix.contains(q) by {
                if q == k {
                    assert(ix[p as int] == q);
                } else {
                    assert(old_ix.contains(q));
                    let m = choose|m: int| 0 <= m < old_ix.len() && old_ix[m] == q;
                    if m < p {
                        assert(ix[m] == q);
                    } else {
                        assert(ix[m + 1] == q);
                    }
                }
            }
        }
        k = k + 1;
    }
    proof {
        assert(time_order(s, ix));
        let c = choose|c: Seq<int>| time_order(s, c);
        law_time_order_unique(s, ix, c);
        assert(candles_view(out@) =~= time_sorted(s));
    }
    out
}

/// Some kept bar shares the key of input bar `k`.
pub open spec fn key_kept(s: Seq<CandleView>, k: int, by_symbol: bool) -> bool {
    exists|i: int| 0 <= i < sort_dedup_spec(s, by_symbol).len() && #[trigger] same_key(sort_dedup_spec(s, by_symbol)[i], s[k], by_symbol)
}

/// What the kept bars are: each is the earliest input bar of its key, no two share
/// a key, every key of the input is kept, and they are in time order; with keys by
/// timestamp alone the timestamps strictly increase.
pub proof fn law_sort_dedup_ordered(s: Seq<CandleView>, by_symbol: bool)
    requires
        firsts_upto(s, kept_positions(s, by_symbol), s.len() as int, by_symbol),
    ensures
        sort_dedup_spec(s, by_symbol).len() == kept_positions(s, by_symbol).len(),
        forall|i: int| 0 <= i < sort_dedup_spec(s, by_symbol).len() ==> {
            &&& first_of_key(s, #[trigger] kept_positions(s, by_symbol)[i], by_symbol)
            &&& sort_dedup_spec(s, by_symbol)[i] == s[kept_positions(s, by_symbol)[i]]
        },
        forall|k: int| 0 <= k < s.len() ==> #[trigger] key_kept(s, k, by_symbol),
        forall|i: int, j: int| 0 <= i < j < sort_dedup_spec(s, by_symbol).len() ==> {
            &&& sort_dedup_spec(s, by_symbol)[i].timestamp <= sort_dedup_spec(s, by_symbol)[j].timestamp
            &&& !same_key(sort_dedup_spec(s, by_symbol)[i], sort_dedup_spec(s, by_symbol)[j], by_symbol)
        },
        !by_symbol ==> forall|i: int, j: int| 0 <= i < j < sort_dedup_spec(s, by_symbol).len()
            ==> sort_dedup_spec(s, by_symbol)[i].timestamp < sort_dedup_spec(s, by_symbol)[j].timestamp,
{
    let kp = kept_positions(s, by_symbol);
    let o = sort_dedup_spec(s, by_symbol);
    assert forall|i: int, j: int| 0 <= i < j < o.len() implies {
        &&& o[i].timestamp <= o[j].timestamp
        &&& !same_key(o[i], o[j], by_symbol)
    } by {
        assert(time_before(s, kp[i], kp[j]));
        assert(first_of_key(s, kp[i], by_symbol));
        assert(first_of_key(s, kp[j], by_symbol));
        if kp[i] < kp[j] {
            assert(!same_key(s[kp[i]], s[kp[j]], by_symbol));
        } else {
            assert(!same_key(s[kp[j]], s[kp[i]], by_symbol));
        }
    }
    assert forall|k: int| 0 <= k < s.len() implies #[trigger] key_kept(s, k, by_symbol) by {
        let f = lemma_first_of_key_exists(s, k, by_symbol);
        assert(kp.contains(f));
        let i = choose|i: int| 0 <= i < kp.len() && kp[i] == f;
        assert(o[i] == s[f]);
        assert(same_key(o[i], s[k], by_symbol));
    }
}

/// Whether two bars share a deduplication key.
fn key_matches(a: &Candle, b: &Candle, by_symbol: bool) -> (r: bool)
    ensures
        r == same_key(a@, b@, by_symbol),
{
    if a.timestamp != b.timestamp {
        false
    } else if by_symbol {
        str_equals(a.symbol.as_str(), b.symbol.as_str())
    } else {
        true
    }
}

/// Stable sort by timestamp that keeps only the earliest bar of each key (the
/// timestamp, and also the symbol when `by_symbol`).
pub fn sort_dedup(candles: &Vec<Candle>, by_symbol: bool) -> (r: Vec<Candle>)
    ensures
        candles_view(r@) == sort_dedup_spec(candles_view(candles@), by_symbol),
        firsts_upto(candles_view(candles@), kept_positions(candles_view(candles@), by_symbol), candles@.len() as int, by_symbol),
        r@.len() <= candles@.len(),
{
    let ghost s = candles_view(candles@);
    let n = candles.len();
    let mut out: Vec<Candle> = Vec::new();
    let ghost mut ix: Seq<int> = Seq::empty();
    let mut k: usize = 0;
    while k < n
        invariant
            n == candles.len(),
            s == candles_view(candles@),
            s.len() == n,
            0 <= k <= n,
            firsts_upto(s, ix, k as int, by_symbol),
            out.len() == ix.len(),
            out.len() <= k,
            forall|i: int| 0 <= i < ix.len() ==> #[trigger] out@[i]@ == s[ix[i]],
        decreases n - k,
    {
        let c = &candles[k];
        assert(c@ == s[k as int]);
        let mut found = false;
        let mut j: usize = 0;
        while j < out.len()
            invariant
                n == candles.len(),
                s == candles_view(candles@),
                s.len() == n,
                k < n,
                c@ == s[k as int],
                out.len() == ix.len(),
                forall|i: int| 0 <= i < ix.len() ==> #[trigger] out@[i]@ == s[ix[i]],
                0 <= j <= out.len(),
                found <==> exists|jj: int| 0 <= jj < j && same_key(s[#[trigger] ix[jj]], s[k as int], by_symbol),
            decreases out.len() - j,
        {
            assert(out@[j as int]@ == s[ix[j as int]]);
            if key_matches(&out[j], c, by_symbol) {
                found = true;
            }
            j = j + 1;
        }
        if found {
            proof {
                let jj = choose|jj: int| 0 <= jj < ix.len() && same_key(s[#[trigger] ix[jj]], s[k as int], by_symbol);
                assert(first_of_key(s, ix[jj], by_symbol));
                assert(ix[jj] < k);
                assert(!first_of_key(s, k as int, by_symbol));
                assert forall|p: int| 0 <= p < k + 1 && first_of_key(s, p, by_symbol) implies #[trigger] ix.contains(p) by {
                    if p < k {
                    }
                }
            }
        } else {
            let mut p: usize = 0;
            while p < out.len() && out[p].timestamp <= c.timestamp
                invariant
                    n == candles.len(),
                    s == candles_view(candles@),
                    k < n,
                    c@ == s[k as int],
                    out.len() == ix.len(),
                    forall|i: int| 0 <= i < ix.len() ==> #[trigger] out@[i]@ == s[ix[i]],
                    0 <= p <= out.len(),
                    forall|i: int| 0 <= i < p ==> s[#[trigger] ix[i]].timestamp <= s[k as int].timestamp,
                decreases out.len() - p,
            {
                assert(out@[p as int]@ == s[ix[p as int]]);
                p = p + 1;
            }
            proof {
                if p < out.len() {
                    assert(out@[p as int]@ == s[ix[p as int]]);
                }
                assert forall|j2: int| 0 <= j2 < k implies !same_key(#[trigger] s[j2], s[k as int], by_symbol) by {
                    if same_key(s[j2], s[k as int], by_symbol) {
                        let f = lemma_first_of_key_exists(s, j2, by_symbol);
                        assert(ix.contains(f));
                        let m = choose|m: int| 0 <= m < ix.len() && ix[m] == f;
                        assert(same_key(s[ix[m]], s[k as int], by_symbol));
                    }
                }
                assert(first_of_key(s, k as int, by_symbol));
            }
            let ghost old_ix = ix;
            let ghost old_out = out@;
            out.insert(p, c.clone());
            proof {
                ix = old_ix.insert(p as int, k as int);
                assert forall|i: int| 0 <= i < ix.len() implies #[trigger] out@[i]@ == s[ix[i]] by {
                    if i < p {
                        assert(out@[i] == old_out[i]);
                        assert(ix[i] == old_ix[i]);
                    } else if i == p {
                    } else {
                        assert(out@[i] == old_out[i - 1]);
                        assert(ix[i] == old_ix[i - 1]);
                    }
                }
                assert forall|i: int| 0 <= i < ix.len() implies ix[i] < k + 1 && first_of_key(s, #[trigger] ix[i], by_symbol) by {
                    if i < p {
                        assert(ix[i] == old_ix[i]);
                    } else if i > p {
                        assert(ix[i] == old_ix[i - 1]);
                    }
                }
                assert forall|i: int, j2: int| 0 <= i < j2 < ix.len() implies time_before(s, #[trigger] ix[i], #[trigger] ix[j2]) by {
                    if j2 < p {
                        assert(ix[i] == old_ix[i] && ix[j2] == old_ix[j2]);
                    } else if j2 == p {
                        assert(ix[i] == old_ix[i]);
                        assert(s[old_ix[i]].timestamp <= s[k as int].timestamp);
                    } else if i == p {
                        assert(ix[j2] == old_ix[j2 - 1]);
                        assert(p < old_ix.len());
                        assert(s[old_ix[p as int]].timestamp > s[k as int].timestamp);
                        if p < j2 - 1 {
                            assert(time_before(s, old_ix[p as int], old_ix[j2 - 1]));
                        }
                    } else if i < p {
                        assert(ix[i] == old_ix[i] && ix[j2] == old_ix[j2 - 1]);
                    } else {
                        assert(ix[i] == old_ix[i - 1] && ix[j2] == old_ix[j2 - 1]);
                    }
                }
                assert forall|q: int| 0 <= q < k + 1 && first_of_key(s, q, by_symbol) implies #[trigger] ix.contains(q) by {
                    if q == k {
                        assert(ix[p as int] == q);
                    } else {
                        assert(old_ix.contains(q));
                        let m = choose|m: int| 0 <= m < old_ix.len() && old_ix[m] == q;
                        if m < p {
                            assert(ix[m] == q);
                        } else {
                            assert(ix[m + 1] == q);
                        }
                    }
                }
            }
        }
        k = k + 1;
    }
    proof {
        assert(firsts_upto(s, ix, s.len() as int, by_symbol));
        let kp = kept_positions(s, by_symbol);
        assert(firsts_upto(s, kp, s.len() as int, by_symbol));
        law_kept_positions_unique(s, ix, kp, by_symbol);
        assert(candles_view(out@) =~= sort_dedup_spec(s, by_symbol));
    }
    out
}

} // verus!
