use vstd::prelude::*;

verus! {

/// One trade of a track: entry and exit times (epoch ms), the track's rank
/// (0 is the track with the highest profit factor) and what the trade carries.
pub struct TradeSlot<P> {
    pub entry: i64,
    pub exit: i64,
    pub track_idx: usize,
    pub payload: P,
}

/// Position `i` of `s` comes before position `j`: an earlier entry, then a lower
/// track rank, then an earlier position (a stable order).
pub open spec fn slot_before<P>(s: Seq<TradeSlot<P>>, i: int, j: int) -> bool {
    ||| s[i].entry < s[j].entry
    ||| s[i].entry == s[j].entry && s[i].track_idx < s[j].track_idx
    ||| s[i].entry == s[j].entry && s[i].track_idx == s[j].track_idx && i < j
}

/// `ix` lists every position of `s` once, in slot order.
pub open spec fn slot_order<P>(s: Seq<TradeSlot<P>>, ix: Seq<int>) -> bool {
    &&& ix.len() == s.len()
    &&& forall|i: int| 0 <= i < ix.len() ==> 0 <= #[trigger] ix[i] < s.len()
    &&& forall|i: int, j: int| 0 <= i < j < ix.len() ==> slot_before(s, #[trigger] ix[i], #[trigger] ix[j])
    &&& forall|p: int| 0 <= p < s.len() ==> #[trigger] ix.contains(p)
}

/// The trades sorted by entry, then track rank, ties in input order (the one
/// sequence of `slot_order`, `law_slot_order_unique`).
pub open spec fn sorted_slots<P>(s: Seq<TradeSlot<P>>) -> Seq<TradeSlot<P>> {
    let ix = choose|ix: Seq<int>| slot_order(s, ix);
    ix.map_values(|k: int| s[k])
}

/// Greedy single-position pass: a trade is taken when nothing is open, or when it
/// enters at or after the exit of the last trade taken.
pub open spec fn greedy_from<P>(s: Seq<TradeSlot<P>>, busy_until: Option<i64>) -> Seq<TradeSlot<P>>
    decreases s.len(),
{
    if s.len() == 0 {
        Seq::empty()
    } else if busy_until is None || s[0].entry >= busy_until->0 {
        seq![s[0]] + greedy_from(s.drop_first(), Some(s[0].exit))
    } else {
        greedy_from(s.drop_first(), busy_until)
    }
}

/// Single-position arbitration of the trades of all tracks.
pub open spec fn arbitrate_spec<P>(s: Seq<TradeSlot<P>>) -> Seq<TradeSlot<P>> {
    greedy_from(sorted_slots(s), None)
}

/// There is only one slot order of a set of trades.
pub proof fn law_slot_order_unique<P>(s: Seq<TradeSlot<P>>, a: Seq<int>, b: Seq<int>)
    requires
        slot_order(s, a),
        slot_order(s, b),
    ensures
        a == b,
{
    assert forall|p: int| a.contains(p) <==> b.contains(p) by {
        if a.contains(p) {
            let i = choose|i: int| 0 <= i < a.len() && a[i] == p;
            assert(0 <= a[i] < s.len());
        }
        if b.contains(p) {
            let i = choose|i: int| 0 <= i < b.len() && b[i] == p;
            assert(0 <= b[i] < s.len());
        }
    }
    lemma_prefix_order_unique(s, a, b);
}

/// Two slot-ordered position sequences with the same members are equal.
proof fn lemma_prefix_order_unique<P>(s: Seq<TradeSlot<P>>, a: Seq<int>, b: Seq<int>)
    requires
        forall|i: int| 0 <= i < a.len() ==> 0 <= #[trigger] a[i] < s.len(),
        forall|i: int| 0 <= i < b.len() ==> 0 <= #[trigger] b[i] < s.len(),
        forall|i: int, j: int| 0 <= i < j < a.len() ==> slot_before(s, #[trigger] a[i], #[trigger] a[j]),
        forall|i: int, j: int| 0 <= i < j < b.len() ==> slot_before(s, #[trigger] b[i], #[trigger] b[j]),
        forall|p: int| a.contains(p) <==> b.contains(p),
    ensures
        a == b,
    decreases a.len() + b.len(),
{
    if a.len() == 0 {
        if b.len() > 0 {
            assert(b.contains(b[0]));
        }
        assert(a =~= b);
    } else if b.len() == 0 {
        assert(a.contains(a[0]));
    } else {
        let la = a.len() - 1;
        let lb = b.len() - 1;
        let x = a[la];
        let y = b[lb];
        assert(a.contains(x) && b.contains(y));
        let m = choose|m: int| 0 <= m < b.len() && b[m] == x;
        let n = choose|n: int| 0 <= n < a.len() && a[n] == y;
        if m < lb {
            assert(slot_before(s, b[m], b[lb]));
            if n < la {
                assert(slot_before(s, a[n], a[la]));
            }
        }
        assert(x == y);
        let a2 = a.drop_last();
        let b2 = b.drop_last();
        assert forall|p: int| a2.contains(p) implies b2.contains(p) by {
            let i = choose|i: int| 0 <= i < a2.len() && a2[i] == p;
            assert(a.contains(p));
            assert(slot_before(s, a[i], a[la]));
            let j = choose|j: int| 0 <= j < b.len() && b[j] == p;
            if j == lb {
                assert(p == x);
            }
            assert(b2[j] == p);
        }
        assert forall|p: int| b2.contains(p) implies a2.contains(p) by {
            let j = choose|j: int| 0 <= j < b2.len() && b2[j] == p;
            assert(b.contains(p));
            assert(slot_before(s, b[j], b[lb]));
            let i = choose|i: int| 0 <= i < a.len() && a[i] == p;
            if i == la {
                assert(p == y);
            }
            assert(a2[i] == p);
        }
        lemma_prefix_order_unique(s, a2, b2);
        assert(a =~= a2.push(x));
        assert(b =~= b2.push(y));
    }
}

/// Stable sort of the trades by entry, then track rank.
fn sort_slots<P>(slots: Vec<TradeSlot<P>>) -> (r: Vec<TradeSlot<P>>)
    ensures
        r@ == sorted_slots(slots@),
        exists|ix: Seq<int>| slot_order(slots@, ix),
{
    let ghost s = slots@;
    let n = slots.len();
    let mut input = slots;
    let mut out: Vec<TradeSlot<P>> = Vec::new();
    let ghost mut ix: Seq<int> = Seq::empty();
    let mut k: usize = 0;
    while k < n
        invariant
            n == s.len(),
            0 <= k <= n,
            input@ == s.skip(k as int),
            out@.len() == ix.len() == k,
            forall|i: int| 0 <= i < ix.len() ==> 0 <= #[trigger] ix[i] < k,
            forall|i: int| 0 <= i < ix.len() ==> #[trigger] out@[i] == s[ix[i]],
            forall|i: int, j: int| 0 <= i < j < ix.len() ==> slot_before(s, #[trigger] ix[i], #[trigger] ix[j]),
            forall|p: int| 0 <= p < k ==> #[trigger] ix.contains(p),
        decreases n - k,
    {
        let x = input.remove(0);
        assert(x == s[k as int]);
        assert(input@ =~= s.skip(k as int + 1));
        let mut p: usize = 0;
        while p < out.len() && (out[p].entry < x.entry || (out[p].entry == x.entry && out[p].track_idx <= x.track_idx))
            invariant
                0 <= p <= out@.len(),
                out@.len() == ix.len(),
                x == s[k as int],
                forall|i: int| 0 <= i < ix.len() ==> #[trigger] out@[i] == s[ix[i]],
                forall|i: int| 0 <= i < p ==> slot_before(s, #[trigger] ix[i], k as int) || (s[ix[i]].entry == s[k as int].entry
                    && s[ix[i]].track_idx == s[k as int].track_idx),
            decreases out@.len() - p,
        {
            assert(out@[p as int] == s[ix[p as int]]);
            p = p + 1;
        }
        let ghost old_ix = ix;
        let ghost old_out = out@;
        proof {
            if p < out.len() {
                assert(out@[p as int] == s[ix[p as int]]);
            }
        }
        out.insert(p, x);
        proof {
            ix = old_ix.insert(p as int, k as int);
            assert forall|i: int| 0 <= i < ix.len() implies #[trigger] out@[i] == s[ix[i]] by {
                if i < p {
                    assert(out@[i] == old_out[i] && ix[i] == old_ix[i]);
                } else if i > p {
                    assert(out@[i] == old_out[i - 1] && ix[i] == old_ix[i - 1]);
                }
            }
            assert forall|i: int| 0 <= i < ix.len() implies 0 <= #[trigger] ix[i] < k + 1 by {
                if i < p {
                    assert(ix[i] == old_ix[i]);
                } else if i > p {
                    assert(ix[i] == old_ix[i - 1]);
                }
            }
            assert forall|i: int, j: int| 0 <= i < j < ix.len() implies slot_before(s, #[trigger] ix[i], #[trigger] ix[j]) by {
                if j < p {
                    assert(ix[i] == old_ix[i] && ix[j] == old_ix[j]);
                } else if j == p {
                    assert(ix[i] == old_ix[i]);
                    assert(old_ix[i] < k);
                } else if i == p {
                    assert(ix[j] == old_ix[j - 1]);
                    let q = old_ix[p as int];
                    assert(!(s[q].entry < s[k as int].entry || (s[q].entry == s[k as int].entry && s[q].track_idx
                        <= s[k as int].track_idx)));
                    if p < j - 1 {
                        assert(slot_before(s, old_ix[p as int], old_ix[j - 1]));
                    }
                } else if i < p {
                    assert(ix[i] == old_ix[i] && ix[j] == old_ix[j - 1]);
                } else {
                    assert(ix[i] == old_ix[i - 1] && ix[j] == old_ix[j - 1]);
                }
            }
            assert forall|q: int| 0 <= q < k + 1 implies #[trigger] ix.contains(q) by {
                if q == k {
                    assert(ix[p as int] == q);
                } else {
                    assert(old_ix.contains(q));
                    let m = choose|m: int| 0 <= m < old_ix.len() && old_ix[m] == q;
                    if m < p {
                        assert(ix[m] == q);
                    } else {
                        assert(ix[m + 1] == q);
                    }
                }
            }
        }
        k = k + 1;
    }
    proof {
        assert(slot_order(s, ix));
        let c = choose|c: Seq<int>| slot_order(s, c);
        law_slot_order_unique(s, ix, c);
        assert(out@ =~= sorted_slots(s));
    }
    out
}

/// Single-position arbitration of several tracks' trades (one position per
/// symbol): the trades sorted by entry (ties to the better track, then input
/// order) and taken greedily, each only once the previous taken trade has exited.
pub fn arbitrate_single_position<P>(slots: Vec<TradeSlot<P>>) -> (r: Vec<TradeSlot<P>>)
    ensures
        r@ == arbitrate_spec(slots@),
{
    let sorted = sort_slots(slots);
    let ghost srt = sorted@;
    let mut rest = sorted;
    let mut accepted: Vec<TradeSlot<P>> = Vec::new();
    let mut busy_until: Option<i64> = None;
    let n = rest.len();
    let mut k: usize = 0;
    while k < n
        invariant
            n == srt.len(),
            0 <= k <= n,
            rest@ == srt.skip(k as int),
            greedy_from(srt, None) == accepted@ + greedy_from(srt.skip(k as int), busy_until),
        decreases n - k,
    {
        let s = rest.remove(0);
        proof {
            assert(s == srt.skip(k as int)[0]);
            assert(srt.skip(k as int).drop_first() =~= srt.skip(k as int + 1));
        }
        let take = match busy_until {
            None => true,
            Some(bu) => s.entry >= bu,
        };
        if take {
            busy_until = Some(s.exit);
            let ghost acc0 = accepted@;
            accepted.push(s);
            assert(acc0.push(srt.skip(k as int)[0]) =~= acc0 + seq![srt.skip(k as int)[0]]);
            assert((acc0 + seq![srt.skip(k as int)[0]]) + greedy_from(srt.skip(k as int + 1), busy_until) =~= acc0 + (seq![
                srt.skip(k as int)[0],
            ] + greedy_from(srt.skip(k as int + 1), busy_until)));
        }
        assert(rest@ =~= srt.skip(k as int + 1));
        k = k + 1;
    }
    proof {
        assert(srt.skip(n as int).len() == 0);
        assert(accepted@ + Seq::<TradeSlot<P>>::empty() =~= accepted@);
    }
    accepted
}

proof fn lemma_greedy_spaced<P>(s: Seq<TradeSlot<P>>, busy: Option<i64>)
    ensures
        forall|i: int|
            1 <= i < greedy_from(s, busy).len() ==> #[trigger] greedy_from(s, busy)[i].entry >= greedy_from(
                s,
                busy,
            )[i - 1].exit,
        busy is Some && greedy_from(s, busy).len() > 0 ==> greedy_from(s, busy)[0].entry >= busy->0,
    decreases s.len(),
{
    if s.len() > 0 {
        let t = s.drop_first();
        if busy is None || s[0].entry >= busy->0 {
            lemma_greedy_spaced(t, Some(s[0].exit));
            let g = greedy_from(t, Some(s[0].exit));
            assert forall|i: int| 1 <= i < (seq![s[0]] + g).len() implies #[trigger] (seq![s[0]] + g)[i].entry >= (seq![s[0]]
                + g)[i - 1].exit by {
                if i == 1 {
                    assert((seq![s[0]] + g)[1] == g[0]);
                } else {
                    assert((seq![s[0]] + g)[i] == g[i - 1]);
                    assert((seq![s[0]] + g)[i - 1] == g[i - 2]);
                }
            }
        } else {
            lemma_greedy_spaced(t, busy);
        }
    }
}

/// Single position: every trade taken enters at or after the exit of the trade
/// taken before it, so no two taken trades are open at once.
pub proof fn law_one_position_at_a_time<P>(s: Seq<TradeSlot<P>>)
    ensures
        forall|i: int|
            1 <= i < arbitrate_spec(s).len() ==> #[trigger] arbitrate_spec(s)[i].entry >= arbitrate_spec(s)[i - 1].exit,
{
    lemma_greedy_spaced(sorted_slots(s), None);
}

} // verus!
