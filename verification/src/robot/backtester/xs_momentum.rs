use vstd::prelude::*;
use crate::types::{Candle, CandleView, candles_view};
use crate::robot::backtester::time_grid::{
    aligned_bars_spec, aligned_closes_spec, bar_at, close_at, grid_positions, last_at, law_union_grid_unique,
    lemma_last_at, opt_bar_view, rows_view, same_position, series_view, union_grid_of, union_time_grid,
};

verus! {

/// The members of `s` that `set` lists, in the order of `s`.
pub open spec fn listed_in(s: Seq<usize>, set: Seq<usize>) -> Seq<usize>
    decreases s.len(),
{
    if s.len() == 0 {
        s
    } else if set.contains(s.last()) {
        listed_in(s.drop_last(), set).push(s.last())
    } else {
        listed_in(s.drop_last(), set)
    }
}

/// The members of `s` that `set` lists and `excl` does not, in the order of `s`.
pub open spec fn listed_in_not(s: Seq<usize>, set: Seq<usize>, excl: Seq<usize>) -> Seq<usize>
    decreases s.len(),
{
    if s.len() == 0 {
        s
    } else if set.contains(s.last()) && !excl.contains(s.last()) {
        listed_in_not(s.drop_last(), set, excl).push(s.last())
    } else {
        listed_in_not(s.drop_last(), set, excl)
    }
}

/// At most the first `k` members of `s`.
pub open spec fn first_n(s: Seq<usize>, k: int) -> Seq<usize> {
    if s.len() <= k { s } else { s.take(k) }
}

/// `base` extended, until it holds `k` members, by the members of `src` (in order)
/// that are neither in it already nor in `excl`.
pub open spec fn fill_from(base: Seq<usize>, src: Seq<usize>, k: int, excl: Seq<usize>) -> Seq<usize>
    decreases src.len(),
{
    if base.len() >= k || src.len() == 0 {
        base
    } else if base.contains(src[0]) || excl.contains(src[0]) {
        fill_from(base, src.drop_first(), k, excl)
    } else {
        fill_from(base.push(src[0]), src.drop_first(), k, excl)
    }
}

/// Book size: `k`, at most half the ranked symbols.
pub open spec fn book_size(n: int, k: int) -> int {
    if k <= n / 2 { k } else { n / 2 }
}

/// Long book: the held longs still ranked in the first `k + buffer`, best first, at
/// most `k`; then the best-ranked others until `k` are held.
pub open spec fn long_book(order: Seq<usize>, k: int, buffer: int, prev_long: Seq<usize>) -> Seq<usize> {
    let kk = book_size(order.len() as int, k);
    if kk == 0 {
        Seq::empty()
    } else {
        let keep_upto = if kk + buffer <= order.len() { kk + buffer } else { order.len() as int };
        fill_from(first_n(listed_in(order.take(keep_upto), prev_long), kk), order, kk, Seq::empty())
    }
}

/// Short book: the held shorts still ranked in the last `n - (k + buffer)` and not
/// long, worst first, at most `k`; then the worst-ranked others that are not long
/// until `k` are held.
pub open spec fn short_book(order: Seq<usize>, k: int, buffer: int, prev_short: Seq<usize>, longs: Seq<usize>) -> Seq<
    usize,
> {
    let n = order.len() as int;
    let kk = book_size(n, k);
    if kk == 0 {
        Seq::empty()
    } else {
        let keep_from = if n >= kk + buffer { n - (kk + buffer) } else { 0 };
        fill_from(
            first_n(listed_in_not(order.subrange(keep_from, n).reverse(), prev_short, longs), kk),
            order.reverse(),
            kk,
            longs,
        )
    }
}

/// `s` lists no index twice.
pub open spec fn distinct(s: Seq<usize>) -> bool {
    forall|i: int, j: int| 0 <= i < j < s.len() ==> s[i] != s[j]
}

proof fn lemma_fill_from_props(base: Seq<usize>, src: Seq<usize>, k: int, excl: Seq<usize>)
    requires
        distinct(base),
        forall|x: usize| base.contains(x) ==> !excl.contains(x),
    ensures
        distinct(fill_from(base, src, k, excl)),
        forall|x: usize| fill_from(base, src, k, excl).contains(x) ==> !excl.contains(x),
        forall|x: usize| fill_from(base, src, k, excl).contains(x) ==> base.contains(x) || src.contains(x),
        base.len() <= fill_from(base, src, k, excl).len(),
        base.len() >= k ==> fill_from(base, src, k, excl) == base,
        base.len() < k ==> fill_from(base, src, k, excl).len() <= k,
        forall|i: int| 0 <= i < base.len() ==> fill_from(base, src, k, excl)[i] == base[i],
    decreases src.len(),
{
    if base.len() >= k || src.len() == 0 {
    } else if base.contains(src[0]) || excl.contains(src[0]) {
        lemma_fill_from_props(base, src.drop_first(), k, excl);
        assert forall|x: usize| src.drop_first().contains(x) implies src.contains(x) by {
            let i = choose|i: int| 0 <= i < src.drop_first().len() && src.drop_first()[i] == x;
            assert(src[i + 1] == x);
        }
    } else {
        let b2 = base.push(src[0]);
        assert forall|i: int, j: int| 0 <= i < j < b2.len() implies b2[i] != b2[j] by {
            if j == base.len() {
                assert(base.contains(base[i]));
            }
        }
        assert forall|x: usize| b2.contains(x) implies !excl.contains(x) by {
            if x != src[0] {
                let i = choose|i: int| 0 <= i < b2.len() && b2[i] == x;
                assert(base[i] == x);
                assert(base.contains(x));
            }
        }
        lemma_fill_from_props(b2, src.drop_first(), k, excl);
        assert forall|x: usize| src.drop_first().contains(x) implies src.contains(x) by {
            let i = choose|i: int| 0 <= i < src.drop_first().len() && src.drop_first()[i] == x;
            assert(src[i + 1] == x);
        }
        assert forall|x: usize| b2.contains(x) implies base.contains(x) || src.contains(x) by {
            if x != src[0] {
                let i = choose|i: int| 0 <= i < b2.len() && b2[i] == x;
                assert(base[i] == x);
            } else {
                assert(src.contains(src[0]));
            }
        }
        assert forall|i: int| 0 <= i < base.len() implies fill_from(base, src, k, excl)[i] == base[i] by {
            assert(b2[i] == base[i]);
        }
    }
}

/// Position of `x` in `s`, or `s.len()` when absent.
fn position_of(s: &Vec<usize>, x: usize) -> (r: usize)
    ensures
        r <= s@.len(),
        r < s@.len() ==> s@[r as int] == x,
        forall|i: int| 0 <= i < r ==> s@[i] != x,
{
    let mut i: usize = 0;
    while i < s.len()
        invariant
            0 <= i <= s@.len(),
            forall|j: int| 0 <= j < i ==> s@[j] != x,
        decreases s.len() - i,
    {
        if s[i] == x {
            return i;
        }
        i += 1;
    }
    i
}

fn contains(s: &Vec<usize>, x: usize) -> (r: bool)
    ensures
        r == s@.contains(x),
{
    let p = position_of(s, x);
    if p < s.len() {
        assert(s@[p as int] == x);
        true
    } else {
        false
    }
}

/// `fill_from` on vectors: extends `base` from `src` (in order, forwards or
/// backwards) with members in neither `base` nor `excl` until `k` are held.
fn fill(base: &mut Vec<usize>, src: &Vec<usize>, backwards: bool, k: usize, excl: &Vec<usize>)
    ensures
        final(base)@ == fill_from(old(base)@, if backwards { src@.reverse() } else { src@ }, k as int, excl@),
{
    let ghost s = if backwards { src@.reverse() } else { src@ };
    let n = src.len();
    let mut i: usize = 0;
    assert(s.skip(0) =~= s);
    while i < n && base.len() < k
        invariant
            n == src@.len(),
            s == (if backwards { src@.reverse() } else { src@ }),
            0 <= i <= n,
            fill_from(old(base)@, s, k as int, excl@) == fill_from(base@, s.skip(i as int), k as int, excl@),
        decreases n - i,
    {
        let x = if backwards {
            src[n - 1 - i]
        } else {
            src[i]
        };
        proof {
            assert(s.skip(i as int)[0] == s[i as int]);
            if backwards {
                assert(s[i as int] == src@[n - 1 - i]);
            }
            assert(s.skip(i as int).drop_first() =~= s.skip(i as int + 1));
        }
        if !contains(base, x) && !contains(excl, x) {
            base.push(x);
        }
        i += 1;
    }
    proof {
        if i == n {
            assert(s.skip(n as int).len() == 0);
        }
    }
}

/// Rank-hysteresis book selection: `order` lists the symbols by signal strength,
/// strongest first. The long book is the `k` strongest, except that held longs
/// (`prev_long`) stay while ranked within `k + buffer`; the short book is the `k`
/// weakest that are not long, except that held shorts stay while ranked within
/// the last `n - (k + buffer)`. `k` is capped at half the symbols; `buffer = 0` is a
/// plain top-k / bottom-k. The books never overlap and list no symbol twice.
pub fn select_books(order: &Vec<usize>, k: usize, buffer: usize, prev_long: &Vec<usize>, prev_short: &Vec<usize>) -> (r: (
    Vec<usize>,
    Vec<usize>,
))
    requires
        distinct(order@),
        book_size(order@.len() as int, k as int) + buffer <= usize::MAX,
    ensures
        r.0@ == long_book(order@, k as int, buffer as int, prev_long@),
        r.1@ == short_book(order@, k as int, buffer as int, prev_short@, r.0@),
        distinct(r.0@),
        distinct(r.1@),
        forall|x: usize| r.0@.contains(x) ==> !r.1@.contains(x),
        r.0@.len() <= book_size(order@.len() as int, k as int),
        r.1@.len() <= book_size(order@.len() as int, k as int),
{
    let n = order.len();
    let kk = if k <= n / 2 {
        k
    } else {
        n / 2
    };
    if kk == 0 {
        return (Vec::new(), Vec::new());
    }
    let keep_upto = if kk + buffer <= n {
        kk + buffer
    } else {
        n
    };
    let mut longs: Vec<usize> = Vec::new();
    let mut i: usize = 0;
    while i < keep_upto
        invariant
            keep_upto <= n == order@.len(),
            0 <= i <= keep_upto,
            longs@ == listed_in(order@.take(i as int), prev_long@),
        decreases keep_upto - i,
    {
        proof {
            assert(order@.take(i as int + 1).drop_last() =~= order@.take(i as int));
            assert(order@.take(i as int + 1).last() == order@[i as int]);
        }
        if contains(prev_long, order[i]) {
            longs.push(order[i]);
        }
        i += 1;
    }
    let ghost listed = longs@;
    proof {
        assert(distinct(order@.take(keep_upto as int)));
        lemma_listed_in_distinct(order@.take(keep_upto as int), prev_long@);
    }
    longs.truncate(kk);
    assert(longs@ == first_n(listed, kk as int)) by {
        if listed.len() > kk {
            assert(longs@ =~= listed.take(kk as int));
        }
    }
    let ghost kept_l = longs@;
    let empty: Vec<usize> = Vec::new();
    fill(&mut longs, order, false, kk, &empty);
    proof {
        assert(empty@ =~= Seq::<usize>::empty());
        assert forall|a: int, b: int| 0 <= a < b < kept_l.len() implies kept_l[a] != kept_l[b] by {
            assert(kept_l[a] == listed[a] && kept_l[b] == listed[b]);
        }
        lemma_fill_from_props(kept_l, order@, kk as int, Seq::empty());
    }
    let keep_from = if n >= kk + buffer {
        n - (kk + buffer)
    } else {
        0
    };
    let mut shorts: Vec<usize> = Vec::new();
    let mut j: usize = 0;
    let ghost tail = order@.subrange(keep_from as int, n as int).reverse();
    while j < n - keep_from
        invariant
            keep_from <= n == order@.len(),
            tail == order@.subrange(keep_from as int, n as int).reverse(),
            0 <= j <= n - keep_from,
            shorts@ == listed_in_not(tail.take(j as int), prev_short@, longs@),
        decreases n - keep_from - j,
    {
        let x = order[n - 1 - j];
        proof {
            assert(tail[j as int] == x);
            assert(tail.take(j as int + 1).drop_last() =~= tail.take(j as int));
            assert(tail.take(j as int + 1).last() == x);
        }
        if contains(prev_short, x) && !contains(&longs, x) {
            shorts.push(x);
        }
        j += 1;
    }
    let ghost listed_s = shorts@;
    proof {
        assert(tail.take(tail.len() as int) =~= tail);
        assert forall|a: int, b: int| 0 <= a < b < tail.len() implies tail[a] != tail[b] by {
            assert(tail[a] == order@[n - 1 - a]);
            assert(tail[b] == order@[n - 1 - b]);
        }
        lemma_listed_in_not_props(tail, prev_short@, longs@);
    }
    shorts.truncate(kk);
    assert(shorts@ == first_n(listed_s, kk as int)) by {
        if listed_s.len() > kk {
            assert(shorts@ =~= listed_s.take(kk as int));
        }
    }
    let ghost kept_s = shorts@;
    proof {
        assert forall|a: int, b: int| 0 <= a < b < kept_s.len() implies kept_s[a] != kept_s[b] by {
            assert(kept_s[a] == listed_s[a] && kept_s[b] == listed_s[b]);
        }
        assert forall|x: usize| kept_s.contains(x) implies !longs@.contains(x) by {
            let a = choose|a: int| 0 <= a < kept_s.len() && kept_s[a] == x;
            assert(listed_s[a] == x);
            assert(listed_s.contains(x));
        }
    }
    fill(&mut shorts, order, true, kk, &longs);
    proof {
        lemma_fill_from_props(kept_s, order@.reverse(), kk as int, longs@);
        assert forall|x: usize| longs@.contains(x) implies !shorts@.contains(x) by {}
    }
    (longs, shorts)
}

proof fn lemma_listed_in_distinct(s: Seq<usize>, set: Seq<usize>)
    requires
        distinct(s),
    ensures
        forall|x: usize| listed_in(s, set).contains(x) ==> s.contains(x) && set.contains(x),
        distinct(listed_in(s, set)),
        listed_in(s, set).len() <= s.len(),
    decreases s.len(),
{
    if s.len() > 0 {
        let d = s.drop_last();
        assert(distinct(d));
        lemma_listed_in_distinct(d, set);
        let p = listed_in(d, set);
        let r = listed_in(s, set);
        assert forall|x: usize| p.contains(x) implies s.contains(x) && x != s.last() by {
            assert(d.contains(x));
            let j = choose|j: int| 0 <= j < d.len() && d[j] == x;
            assert(s[j] == x);
            assert(s[j] != s[s.len() - 1]);
        }
        assert forall|x: usize| r.contains(x) implies s.contains(x) && set.contains(x) by {
            let i = choose|i: int| 0 <= i < r.len() && r[i] == x;
            if i < p.len() {
                assert(p[i] == x);
                assert(p.contains(x));
            } else {
                assert(s[s.len() - 1] == x);
            }
        }
        assert forall|a: int, b: int| 0 <= a < b < r.len() implies r[a] != r[b] by {
            if b == p.len() {
                assert(p.contains(p[a]));
            }
        }
    }
}

proof fn lemma_listed_in_not_props(s: Seq<usize>, set: Seq<usize>, excl: Seq<usize>)
    requires
        distinct(s),
    ensures
        forall|x: usize| listed_in_not(s, set, excl).contains(x) ==> s.contains(x) && !excl.contains(x),
        distinct(listed_in_not(s, set, excl)),
    decreases s.len(),
{
    if s.len() > 0 {
        let d = s.drop_last();
        assert(distinct(d));
        lemma_listed_in_not_props(d, set, excl);
        let p = listed_in_not(d, set, excl);
        let r = listed_in_not(s, set, excl);
        assert forall|x: usize| p.contains(x) implies s.contains(x) && x != s.last() by {
            assert(d.contains(x));
            let j = choose|j: int| 0 <= j < d.len() && d[j] == x;
            assert(s[j] == x);
            assert(s[j] != s[s.len() - 1]);
        }
        assert forall|x: usize| r.contains(x) implies s.contains(x) && !excl.contains(x) by {
            let i = choose|i: int| 0 <= i < r.len() && r[i] == x;
            if i < p.len() {
                assert(p[i] == x);
                assert(p.contains(x));
            } else {
                assert(s[s.len() - 1] == x);
            }
        }
        assert forall|a: int, b: int| 0 <= a < b < r.len() implies r[a] != r[b] by {
            if b == p.len() {
                assert(p.contains(p[a]));
            }
        }
    }
}

proof fn lemma_fill_takes_prefix(src: Seq<usize>, k: int, excl: Seq<usize>, j: int)
    requires
        distinct(src),
        0 <= j <= k <= src.len(),
        forall|i: int| 0 <= i < k ==> !excl.contains(#[trigger] src[i]),
    ensures
        fill_from(src.take(j), src.skip(j), k, excl) == src.take(k),
    decreases k - j,
{
    if j < k {
        let base = src.take(j);
        assert(src.skip(j)[0] == src[j]);
        assert(!base.contains(src[j])) by {
            if base.contains(src[j]) {
                let i = choose|i: int| 0 <= i < base.len() && base[i] == src[j];
                assert(src[i] == src[j]);
            }
        }
        assert(!excl.contains(src[j]));
        assert(base.push(src[j]) =~= src.take(j + 1));
        assert(src.skip(j).drop_first() =~= src.skip(j + 1));
        lemma_fill_takes_prefix(src, k, excl, j + 1);
    }
}

proof fn lemma_listed_in_not_members(s: Seq<usize>, set: Seq<usize>, excl: Seq<usize>)
    ensures
        forall|x: usize| listed_in_not(s, set, excl).contains(x) ==> set.contains(x),
        forall|i: int| 0 <= i < s.len() && set.contains(s[i]) && !excl.contains(s[i]) ==> listed_in_not(
            s,
            set,
            excl,
        ).contains(#[trigger] s[i]),
    decreases s.len(),
{
    if s.len() > 0 {
        let d = s.drop_last();
        lemma_listed_in_not_members(d, set, excl);
        let p = listed_in_not(d, set, excl);
        let r = listed_in_not(s, set, excl);
        assert forall|x: usize| r.contains(x) implies set.contains(x) by {
            let i = choose|i: int| 0 <= i < r.len() && r[i] == x;
            if i < p.len() {
                assert(p[i] == x);
                assert(p.contains(x));
            }
        }
        assert forall|i: int| 0 <= i < s.len() && set.contains(s[i]) && !excl.contains(s[i]) implies r.contains(
            #[trigger] s[i],
        ) by {
            if i < s.len() - 1 {
                assert(d[i] == s[i]);
                assert(p.contains(d[i]));
                let q = choose|q: int| 0 <= q < p.len() && p[q] == d[i];
                assert(r[q] == p[q]);
            } else {
                assert(r[r.len() - 1] == s[i]);
            }
        }
    }
}

proof fn lemma_listed_in_members(s: Seq<usize>, set: Seq<usize>)
    ensures
        forall|i: int| 0 <= i < s.len() && set.contains(s[i]) ==> listed_in(s, set).contains(#[trigger] s[i]),
    decreases s.len(),
{
    if s.len() > 0 {
        let d = s.drop_last();
        lemma_listed_in_members(d, set);
        let p = listed_in(d, set);
        let r = listed_in(s, set);
        assert forall|i: int| 0 <= i < s.len() && set.contains(s[i]) implies r.contains(#[trigger] s[i]) by {
            if i < s.len() - 1 {
                assert(d[i] == s[i]);
                assert(p.contains(d[i]));
                let q = choose|q: int| 0 <= q < p.len() && p[q] == d[i];
                assert(r[q] == p[q]);
            } else {
                assert(r[r.len() - 1] == s[i]);
            }
        }
    }
}

/// A list without repeats whose members all appear in `set` is no longer than `set`.
proof fn lemma_distinct_within(l: Seq<usize>, set: Seq<usize>)
    requires
        distinct(l),
        forall|x: usize| l.contains(x) ==> set.contains(x),
    ensures
        l.len() <= set.len(),
{
    assert(l.no_duplicates()) by {
        assert forall|i: int, j: int| 0 <= i < l.len() && 0 <= j < l.len() && i != j implies l[i] != l[j] by {
            if i < j {
                assert(l[i] != l[j]);
            } else {
                assert(l[j] != l[i]);
            }
        }
    }
    l.unique_seq_to_set();
    set.lemma_cardinality_of_set();
    assert(l.to_set().subset_of(set.to_set())) by {
        assert forall|x: usize| l.to_set().contains(x) implies set.to_set().contains(x) by {
            assert(l.contains(x));
        }
    }
    vstd::set_lib::lemma_len_subset(l.to_set(), set.to_set());
}

/// Short-book hysteresis law: when at most a book's worth of shorts is held, every
/// held short still ranked among the last `k + buffer` symbols (with `k` capped at
/// half of them) that is not in the long book stays in the short book.
pub proof fn law_held_short_stays(
    order: Seq<usize>,
    k: int,
    buffer: int,
    prev_short: Seq<usize>,
    longs: Seq<usize>,
    i: int,
)
    requires
        distinct(order),
        buffer >= 0,
        book_size(order.len() as int, k) > 0,
        prev_short.len() <= book_size(order.len() as int, k),
        order.len() - (book_size(order.len() as int, k) + buffer) <= i < order.len(),
        0 <= i,
        prev_short.contains(order[i]),
        !longs.contains(order[i]),
    ensures
        short_book(order, k, buffer, prev_short, longs).contains(order[i]),
{
    let n = order.len() as int;
    let kk = book_size(n, k);
    let keep_from = if n >= kk + buffer { n - (kk + buffer) } else { 0 };
    let w = order.subrange(keep_from, n);
    let tail = w.reverse();
    assert(distinct(tail)) by {
        assert forall|a: int, b: int| 0 <= a < b < tail.len() implies tail[a] != tail[b] by {
            assert(tail[a] == order[n - 1 - a]);
            assert(tail[b] == order[n - 1 - b]);
        }
    }
    let p = n - 1 - i;
    assert(0 <= p < tail.len());
    assert(tail[p] == order[i]);
    lemma_listed_in_not_props(tail, prev_short, longs);
    lemma_listed_in_not_members(tail, prev_short, longs);
    let l = listed_in_not(tail, prev_short, longs);
    assert(l.contains(order[i]));
    lemma_distinct_within(l, prev_short);
    assert(first_n(l, kk) == l);
    lemma_fill_from_props(l, order.reverse(), kk, longs);
    let q = choose|q: int| 0 <= q < l.len() && l[q] == order[i];
    assert(short_book(order, k, buffer, prev_short, longs)[q] == order[i]);
}

/// Long-book hysteresis law: when at most a book's worth of longs is held, every
/// held long still ranked among the first `k + buffer` symbols (with `k` capped at
/// half of them) stays in the long book.
pub proof fn law_held_long_stays(order: Seq<usize>, k: int, buffer: int, prev_long: Seq<usize>, i: int)
    requires
        distinct(order),
        buffer >= 0,
        book_size(order.len() as int, k) > 0,
        prev_long.len() <= book_size(order.len() as int, k),
        0 <= i < order.len(),
        i < book_size(order.len() as int, k) + buffer,
        prev_long.contains(order[i]),
    ensures
        long_book(order, k, buffer, prev_long).contains(order[i]),
{
    let n = order.len() as int;
    let kk = book_size(n, k);
    let keep_upto = if kk + buffer <= n { kk + buffer } else { n };
    let head = order.take(keep_upto);
    assert(distinct(head)) by {
        assert forall|a: int, b: int| 0 <= a < b < head.len() implies head[a] != head[b] by {
            assert(head[a] == order[a]);
            assert(head[b] == order[b]);
        }
    }
    assert(head[i] == order[i]);
    lemma_listed_in_distinct(head, prev_long);
    lemma_listed_in_members(head, prev_long);
    let l = listed_in(head, prev_long);
    assert(l.contains(order[i]));
    lemma_distinct_within(l, prev_long);
    assert(first_n(l, kk) == l);
    lemma_fill_from_props(l, order, kk, Seq::empty());
    let q = choose|q: int| 0 <= q < l.len() && l[q] == order[i];
    assert(long_book(order, k, buffer, prev_long)[q] == order[i]);
}

proof fn lemma_listed_in_none(s: Seq<usize>, excl: Seq<usize>)
    ensures
        listed_in(s, Seq::<usize>::empty()) == Seq::<usize>::empty(),
        listed_in_not(s, Seq::<usize>::empty(), excl) == Seq::<usize>::empty(),
    decreases s.len(),
{
    if s.len() > 0 {
        lemma_listed_in_none(s.drop_last(), excl);
    }
}

/// With no held positions the books are the plain top-k and bottom-k: the `k`
/// strongest symbols long and the `k` weakest short (weakest first), `k` capped at
/// half the symbols, whatever the buffer.
pub proof fn law_books_without_holdings(order: Seq<usize>, k: int, buffer: int)
    requires
        distinct(order),
        k >= 0,
        buffer >= 0,
    ensures
        long_book(order, k, buffer, Seq::empty()) == order.take(book_size(order.len() as int, k)),
        short_book(order, k, buffer, Seq::empty(), order.take(book_size(order.len() as int, k))) == order.reverse().take(
            book_size(order.len() as int, k),
        ),
{
    let n = order.len() as int;
    let kk = book_size(n, k);
    if kk > 0 {
        let keep_upto = if kk + buffer <= n { kk + buffer } else { n };
        let keep_from = if n >= kk + buffer { n - (kk + buffer) } else { 0 };
        lemma_listed_in_none(order.take(keep_upto), Seq::empty());
        lemma_listed_in_none(order.subrange(keep_from, n).reverse(), order.take(kk));
        assert(first_n(Seq::<usize>::empty(), kk) =~= Seq::<usize>::empty());
        lemma_fill_takes_prefix(order, kk, Seq::empty(), 0);
        assert(order.take(0) =~= Seq::<usize>::empty());
        assert(order.skip(0) =~= order);
        let rev = order.reverse();
        assert forall|a: int, b: int| 0 <= a < b < rev.len() implies rev[a] != rev[b] by {
            assert(rev[a] == order[n - 1 - a]);
            assert(rev[b] == order[n - 1 - b]);
        }
        assert forall|i: int| 0 <= i < kk implies !order.take(kk).contains(#[trigger] rev[i]) by {
            assert(rev[i] == order[n - 1 - i]);
            if order.take(kk).contains(rev[i]) {
                let m = choose|m: int| 0 <= m < kk && order.take(kk)[m] == rev[i];
                assert(order[m] == order[n - 1 - i]);
            }
        }
        lemma_fill_takes_prefix(rev, kk, order.take(kk), 0);
        assert(rev.take(0) =~= Seq::<usize>::empty());
        assert(rev.skip(0) =~= rev);
    } else {
        assert(order.take(0) =~= Seq::<usize>::empty());
        assert(order.reverse().take(0) =~= Seq::<usize>::empty());
    }
}

/// A bar matrix (`ohlc[bar][symbol]`, `None` where the symbol has no bar) as views.
pub open spec fn matrix_view(ohlc: Seq<Vec<Option<Candle>>>) -> Seq<Seq<Option<CandleView>>> {
    ohlc.map_values(
        |row: Vec<Option<Candle>>|
            row@.map_values(
                |c: Option<Candle>|
                    match c {
                        Some(x) => Some(x@),
                        None => None,
                    },
            ),
    )
}

/// The bars of symbol `j` at rows `lo..hi` that exist, in row order.
pub open spec fn sym_window(m: Seq<Seq<Option<CandleView>>>, lo: int, hi: int, j: int) -> Seq<CandleView>
    decreases hi - lo,
{
    if hi <= lo {
        Seq::empty()
    } else {
        let p = sym_window(m, lo, hi - 1, j);
        let b = hi - 1;
        if 0 <= b < m.len() && 0 <= j < m[b].len() && m[b][j] is Some {
            p.push(m[b][j]->0)
        } else {
            p
        }
    }
}

/// The bars of symbol `j` in the last `window` rows up to and including row `t`
/// (at least one row), skipping rows where the symbol has no bar; nothing after
/// `t` is read.
pub fn collect_sym_window(ohlc: &[Vec<Option<Candle>>], t: usize, j: usize, window: usize) -> (r: Vec<Candle>)
    requires
        t < usize::MAX,
    ensures
        ({
            let w = if window >= 1 { window as int } else { 1 };
            let lo = if t + 1 >= w { t + 1 - w } else { 0 };
            candles_view(r@) == sym_window(matrix_view(ohlc@), lo, t + 1, j as int)
        }),
{
    let ghost m = matrix_view(ohlc@);
    let w = if window >= 1 {
        window
    } else {
        1
    };
    let lo = if t + 1 >= w {
        t + 1 - w
    } else {
        0
    };
    let mut out: Vec<Candle> = Vec::new();
    let mut b = lo;
    while b <= t
        invariant
            m == matrix_view(ohlc@),
            lo <= b <= t + 1,
            t < usize::MAX,
            candles_view(out@) == sym_window(m, lo as int, b as int, j as int),
        decreases t + 1 - b,
    {
        let ghost before = candles_view(out@);
        if b < ohlc.len() {
            let row = &ohlc[b];
            assert(m[b as int] == row@.map_values(
                |c: Option<Candle>|
                    match c {
                        Some(x) => Some(x@),
                        None => None,
                    },
            ));
            if j < row.len() {
                match &row[j] {
                    Some(c) => {
                        out.push(c.clone());
                        assert(candles_view(out@) =~= before.push(c@));
                    },
                    None => {},
                }
            }
        }
        b += 1;
    }
    out
}

/// Members of `s` in neither `base` nor `excl`.
pub open spec fn count_new(s: Seq<usize>, base: Seq<usize>, excl: Seq<usize>) -> nat
    decreases s.len(),
{
    if s.len() == 0 {
        0
    } else {
        (if !base.contains(s[0]) && !excl.contains(s[0]) { 1nat } else { 0nat }) + count_new(s.drop_first(), base, excl)
    }
}

/// Members of `s` listed in `set`.
pub open spec fn count_in(s: Seq<usize>, set: Seq<usize>) -> nat
    decreases s.len(),
{
    if s.len() == 0 {
        0
    } else {
        (if set.contains(s[0]) { 1nat } else { 0nat }) + count_in(s.drop_first(), set)
    }
}

proof fn lemma_count_new_push(s: Seq<usize>, base: Seq<usize>, excl: Seq<usize>, x: usize)
    requires
        !s.contains(x),
    ensures
        count_new(s, base.push(x), excl) == count_new(s, base, excl),
    decreases s.len(),
{
    if s.len() > 0 {
        assert(s[0] != x) by {
            assert(s.contains(s[0]));
        }
        assert(base.push(x).contains(s[0]) == base.contains(s[0])) by {
            if base.push(x).contains(s[0]) {
                let i = choose|i: int| 0 <= i < base.push(x).len() && base.push(x)[i] == s[0];
                assert(i < base.len());
                assert(base[i] == s[0]);
            }
            if base.contains(s[0]) {
                let i = choose|i: int| 0 <= i < base.len() && base[i] == s[0];
                assert(base.push(x)[i] == s[0]);
            }
        }
        assert forall|y: usize| s.drop_first().contains(y) implies s.contains(y) by {
            let i = choose|i: int| 0 <= i < s.drop_first().len() && s.drop_first()[i] == y;
            assert(s[i + 1] == y);
        }
        lemma_count_new_push(s.drop_first(), base, excl, x);
    }
}

proof fn lemma_count_split(s: Seq<usize>, base: Seq<usize>, excl: Seq<usize>)
    ensures
        count_new(s, base, excl) + count_in(s, base) + count_in(s, excl) >= s.len(),
    decreases s.len(),
{
    if s.len() > 0 {
        lemma_count_split(s.drop_first(), base, excl);
    }
}

proof fn lemma_count_eq_at_most_one(s: Seq<usize>, b: usize)
    requires
        distinct(s),
    ensures
        count_in(s, seq![b]) <= 1,
        !s.contains(b) ==> count_in(s, seq![b]) == 0,
    decreases s.len(),
{
    if s.len() > 0 {
        let t = s.drop_first();
        assert(distinct(t));
        lemma_count_eq_at_most_one(t, b);
        assert(seq![b].contains(s[0]) == (s[0] == b)) by {
            assert(seq![b][0] == b);
        }
        if s[0] == b {
            assert(!t.contains(b)) by {
                if t.contains(b) {
                    let i = choose|i: int| 0 <= i < t.len() && t[i] == b;
                    assert(s[i + 1] == s[0]);
                }
            }
        }
        if !s.contains(b) {
            assert(s[0] != b) by {
                assert(s.contains(s[0]));
            }
            assert(!t.contains(b)) by {
                if t.contains(b) {
                    let i = choose|i: int| 0 <= i < t.len() && t[i] == b;
                    assert(s[i + 1] == b);
                }
            }
        }
    }
}

proof fn lemma_count_in_push(s: Seq<usize>, set: Seq<usize>, b: usize)
    ensures
        count_in(s, set.push(b)) <= count_in(s, set) + count_in(s, seq![b]),
    decreases s.len(),
{
    if s.len() > 0 {
        lemma_count_in_push(s.drop_first(), set, b);
        if set.push(b).contains(s[0]) {
            let i = choose|i: int| 0 <= i < set.push(b).len() && set.push(b)[i] == s[0];
            if i < set.len() {
                assert(set[i] == s[0]);
            } else {
                assert(seq![b][0] == s[0]);
            }
        }
    }
}

proof fn lemma_count_in_bound(s: Seq<usize>, set: Seq<usize>)
    requires
        distinct(s),
    ensures
        count_in(s, set) <= set.len(),
    decreases set.len(),
{
    if set.len() == 0 {
        lemma_count_in_empty(s, set);
    } else {
        let b = set.last();
        let rest = set.drop_last();
        assert(rest.push(b) =~= set);
        lemma_count_in_bound(s, rest);
        lemma_count_in_push(s, rest, b);
        lemma_count_eq_at_most_one(s, b);
    }
}

proof fn lemma_count_in_empty(s: Seq<usize>, set: Seq<usize>)
    requires
        set.len() == 0,
    ensures
        count_in(s, set) == 0,
    decreases s.len(),
{
    if s.len() > 0 {
        lemma_count_in_empty(s.drop_first(), set);
    }
}

proof fn lemma_fill_reaches(base: Seq<usize>, src: Seq<usize>, k: int, excl: Seq<usize>)
    requires
        distinct(src),
        base.len() <= k,
        count_new(src, base, excl) >= k - base.len(),
    ensures
        fill_from(base, src, k, excl).len() == k,
    decreases src.len(),
{
    if base.len() >= k {
    } else {
        assert(src.len() > 0);
        let t = src.drop_first();
        assert(distinct(t));
        assert forall|y: usize| t.contains(y) implies y != src[0] by {
            let i = choose|i: int| 0 <= i < t.len() && t[i] == y;
            assert(src[i + 1] == y);
        }
        if base.contains(src[0]) || excl.contains(src[0]) {
            lemma_fill_reaches(base, t, k, excl);
        } else {
            assert(!t.contains(src[0]));
            lemma_count_new_push(t, base, excl, src[0]);
            lemma_fill_reaches(base.push(src[0]), t, k, excl);
        }
    }
}

/// Each book holds exactly `k` symbols (`k` capped at half the symbols), whatever
/// the holdings and the buffer.
pub proof fn law_books_are_full(order: Seq<usize>, k: int, buffer: int, prev_long: Seq<usize>, prev_short: Seq<usize>)
    requires
        distinct(order),
        k >= 0,
        buffer >= 0,
    ensures
        long_book(order, k, buffer, prev_long).len() == book_size(order.len() as int, k),
        short_book(order, k, buffer, prev_short, long_book(order, k, buffer, prev_long)).len() == book_size(
            order.len() as int,
            k,
        ),
{
    let n = order.len() as int;
    let kk = book_size(n, k);
    if kk > 0 {
        let keep_upto = if kk + buffer <= n { kk + buffer } else { n };
        let keep_from = if n >= kk + buffer { n - (kk + buffer) } else { 0 };
        let listed = listed_in(order.take(keep_upto), prev_long);
        assert(distinct(order.take(keep_upto)));
        lemma_listed_in_distinct(order.take(keep_upto), prev_long);
        let kept_l = first_n(listed, kk);
        assert(distinct(kept_l)) by {
            assert forall|a: int, b: int| 0 <= a < b < kept_l.len() implies kept_l[a] != kept_l[b] by {
                assert(kept_l[a] == listed[a] && kept_l[b] == listed[b]);
            }
        }
        lemma_count_split(order, kept_l, Seq::empty());
        lemma_count_in_bound(order, kept_l);
        lemma_count_in_empty(order, Seq::<usize>::empty());
        lemma_fill_reaches(kept_l, order, kk, Seq::empty());
        let longs = long_book(order, k, buffer, prev_long);
        assert(longs == fill_from(kept_l, order, kk, Seq::empty()));
        let rev = order.reverse();
        assert(distinct(rev)) by {
            assert forall|a: int, b: int| 0 <= a < b < rev.len() implies rev[a] != rev[b] by {
                assert(rev[a] == order[n - 1 - a]);
                assert(rev[b] == order[n - 1 - b]);
            }
        }
        let tail = order.subrange(keep_from, n).reverse();
        assert(distinct(tail)) by {
            assert forall|a: int, b: int| 0 <= a < b < tail.len() implies tail[a] != tail[b] by {
                assert(tail[a] == order[n - 1 - a]);
                assert(tail[b] == order[n - 1 - b]);
            }
        }
        lemma_listed_in_not_props(tail, prev_short, longs);
        let listed_s = listed_in_not(tail, prev_short, longs);
        let kept_s = first_n(listed_s, kk);
        assert(distinct(kept_s)) by {
            assert forall|a: int, b: int| 0 <= a < b < kept_s.len() implies kept_s[a] != kept_s[b] by {
                assert(kept_s[a] == listed_s[a] && kept_s[b] == listed_s[b]);
            }
        }
        lemma_count_split(rev, kept_s, longs);
        lemma_count_in_bound(rev, kept_s);
        lemma_count_in_bound(rev, longs);
        lemma_fill_reaches(kept_s, rev, kk, longs);
    }
}

/// Closes of several series aligned on their union time grid: one row per time
/// at which some series has a bar, oldest first, holding per series the close of
/// its last bar at that time, or `None` where it has no bar then.
pub fn align_closes(series: &Vec<Vec<Candle>>) -> (r: Vec<Vec<Option<i64>>>)
    ensures
        rows_view(r@) == aligned_closes_spec(series_view(series@)),
{
    let ghost s = series_view(series@);
    let grid = union_time_grid(series);
    let pos = grid_positions(series, &grid);
    proof {
        law_union_grid_unique(s, grid@, union_grid_of(s));
    }
    let mut rows: Vec<Vec<Option<i64>>> = Vec::new();
    let mut b: usize = 0;
    while b < pos.len()
        invariant
            s == series_view(series@),
            grid@ == union_grid_of(s),
            pos@.len() == grid@.len(),
            forall|b2: int| 0 <= b2 < grid@.len() ==> (#[trigger] pos@[b2])@.len() == series@.len(),
            forall|b2: int, j: int| 0 <= b2 < grid@.len() && 0 <= j < series@.len() ==> same_position(
                #[trigger] pos@[b2]@[j],
                last_at(s[j], grid@[b2]),
            ),
            0 <= b <= pos@.len(),
            rows@.len() == b,
            forall|b2: int| 0 <= b2 < b ==> (#[trigger] rows@[b2])@ == aligned_closes_spec(s)[b2],
        decreases pos@.len() - b,
    {
        let mut row: Vec<Option<i64>> = Vec::new();
        let mut j: usize = 0;
        while j < series.len()
            invariant
                s == series_view(series@),
                grid@ == union_grid_of(s),
                pos@.len() == grid@.len(),
                0 <= b < grid@.len(),
                pos@[b as int]@.len() == series@.len(),
                forall|j2: int| 0 <= j2 < series@.len() ==> same_position(
                    #[trigger] pos@[b as int]@[j2],
                    last_at(s[j2], grid@[b as int]),
                ),
                0 <= j <= series@.len(),
                row@.len() == j,
                forall|j2: int| 0 <= j2 < j ==> #[trigger] row@[j2] == close_at(s[j2], grid@[b as int]),
            decreases series@.len() - j,
        {
            proof {
                lemma_last_at(s[j as int], grid@[b as int]);
                assert(s[j as int] == candles_view(series@[j as int]@));
            }
            let c = match pos[b][j] {
                Some(i) => {
                    assert(s[j as int][i as int] == series@[j as int]@[i as int]@);
                    Some(series[j][i].close)
                },
                None => None,
            };
            row.push(c);
            j = j + 1;
        }
        proof {
            assert(row@ =~= aligned_closes_spec(s)[b as int]);
        }
        rows.push(row);
        b = b + 1;
    }
    proof {
        assert(rows_view(rows@) =~= aligned_closes_spec(s));
    }
    rows
}

/// Bars of several series aligned on their union time grid: one row per time at
/// which some series has a bar, oldest first, holding per series its last bar at
/// that time, or `None` where it has no bar then.
pub fn align_ohlc(series: &Vec<Vec<Candle>>) -> (r: Vec<Vec<Option<Candle>>>)
    ensures
        r@.len() == aligned_bars_spec(series_view(series@)).len(),
        forall|b: int| 0 <= b < r@.len() ==> (#[trigger] r@[b])@.len() == series@.len(),
        forall|b: int, j: int| 0 <= b < r@.len() && 0 <= j < series@.len() ==> opt_bar_view(#[trigger] r@[b]@[j])
            == aligned_bars_spec(series_view(series@))[b][j],
{
    let ghost s = series_view(series@);
    let grid = union_time_grid(series);
    let pos = grid_positions(series, &grid);
    proof {
        law_union_grid_unique(s, grid@, union_grid_of(s));
    }
    let mut rows: Vec<Vec<Option<Candle>>> = Vec::new();
    let mut b: usize = 0;
    while b < pos.len()
        invariant
            s == series_view(series@),
            grid@ == union_grid_of(s),
            pos@.len() == grid@.len(),
            forall|b2: int| 0 <= b2 < grid@.len() ==> (#[trigger] pos@[b2])@.len() == series@.len(),
            forall|b2: int, j: int| 0 <= b2 < grid@.len() && 0 <= j < series@.len() ==> same_position(
                #[trigger] pos@[b2]@[j],
                last_at(s[j], grid@[b2]),
            ),
            0 <= b <= pos@.len(),
            rows@.len() == b,
            forall|b2: int| 0 <= b2 < b ==> (#[trigger] rows@[b2])@.len() == series@.len(),
            forall|b2: int, j: int| 0 <= b2 < b && 0 <= j < series@.len() ==> opt_bar_view(#[trigger] rows@[b2]@[j])
                == aligned_bars_spec(s)[b2][j],
        decreases pos@.len() - b,
    {
        let mut row: Vec<Option<Candle>> = Vec::new();
        let mut j: usize = 0;
        while j < series.len()
            invariant
                s == series_view(series@),
                grid@ == union_grid_of(s),
                pos@.len() == grid@.len(),
                0 <= b < grid@.len(),
                pos@[b as int]@.len() == series@.len(),
                forall|j2: int| 0 <= j2 < series@.len() ==> same_position(
                    #[trigger] pos@[b as int]@[j2],
                    last_at(s[j2], grid@[b as int]),
                ),
                0 <= j <= series@.len(),
                row@.len() == j,
                forall|j2: int| 0 <= j2 < j ==> opt_bar_view(#[trigger] row@[j2]) == bar_at(s[j2], grid@[b as int]),
            decreases series@.len() - j,
        {
            proof {
                lemma_last_at(s[j as int], grid@[b as int]);
                assert(s[j as int] == candles_view(series@[j as int]@));
            }
            let c = match pos[b][j] {
                Some(i) => {
                    assert(s[j as int][i as int] == series@[j as int]@[i as int]@);
                    Some(series[j][i].clone())
                },
                None => None,
            };
            row.push(c);
            j = j + 1;
        }
        rows.push(row);
        b = b + 1;
    }
    rows
}

} // verus!
