use vstd::prelude::*;
use vstd::string::StringExecFns;
use crate::clock::now_epoch_millis;
use crate::text::str_equals;
use crate::robot::backtester::time_grid::{last_at, lemma_last_at};
use crate::types::{Candle, CandleView, candles_view};

verus! {

/// Bars kept per key when no size is given.
pub const DEFAULT_CACHE_SIZE: usize = 500;

/// Age reported for a key with no bars (seconds).
pub const NO_DATA_AGE_SECS: u64 = 999_999;

/// Cache key of a symbol and interval: `"<symbol>_<interval>"` (`"BTCUSDT_1h"`).
pub open spec fn cache_key(symbol: Seq<char>, interval: Seq<char>) -> Seq<char> {
    symbol + "_"@ + interval
}

/// No two bars share a timestamp.
pub open spec fn distinct_timestamps(b: Seq<CandleView>) -> bool {
    forall|i: int, j: int| 0 <= i < j < b.len() ==> #[trigger] b[i].timestamp != #[trigger] b[j].timestamp
}

/// One bar pushed onto a key's bars: a stored bar with the same timestamp is
/// replaced by it (a live, still-open bar is updated), wherever it stands; any
/// other bar is appended, dropping the oldest when more than `max` bars would be
/// kept.
pub open spec fn push_step(b: Seq<CandleView>, c: CandleView, max: nat) -> Seq<CandleView> {
    match last_at(b, c.timestamp) {
        Some(i) => b.update(i, c),
        None => if b.len() + 1 > max {
            b.push(c).drop_first()
        } else {
            b.push(c)
        },
    }
}

/// A key's bars after pushing the bars `cs` in order (bars of other keys leave them
/// as they are).
pub open spec fn bars_after(b: Seq<CandleView>, cs: Seq<CandleView>, key: Seq<char>, max: nat) -> Seq<CandleView>
    decreases cs.len(),
{
    if cs.len() == 0 {
        b
    } else {
        let prev = bars_after(b, cs.drop_last(), key, max);
        if cache_key(cs.last().symbol, cs.last().interval) == key {
            push_step(prev, cs.last(), max)
        } else {
            prev
        }
    }
}

/// The last `limit` bars of `b` (all of them when there are fewer).
pub open spec fn latest(b: Seq<CandleView>, limit: nat) -> Seq<CandleView> {
    let n = if limit < b.len() { limit as int } else { b.len() as int };
    b.subrange(b.len() - n, b.len() as int)
}

/// Seconds from a bar at `ts` to `now` (both epoch ms), whole seconds, never
/// negative.
pub open spec fn age_secs(ts: i64, now: i64) -> int {
    if now > ts { (now - ts) / 1000 } else { 0 }
}

/// The bars stored under a key, looked up from the last entry backwards.
pub open spec fn lookup(v: Seq<(Seq<char>, Seq<CandleView>)>, key: Seq<char>) -> Seq<CandleView>
    decreases v.len(),
{
    if v.len() == 0 {
        Seq::empty()
    } else if v.last().0 == key {
        v.last().1
    } else {
        lookup(v.drop_last(), key)
    }
}

/// No two entries share a key.
pub open spec fn distinct_keys(v: Seq<(Seq<char>, Seq<CandleView>)>) -> bool {
    forall|i: int, j: int| 0 <= i < j < v.len() ==> #[trigger] v[i].0 != #[trigger] v[j].0
}

proof fn lemma_lookup_at(v: Seq<(Seq<char>, Seq<CandleView>)>, i: int)
    requires
        distinct_keys(v),
        0 <= i < v.len(),
    ensures
        lookup(v, v[i].0) == v[i].1,
    decreases v.len(),
{
    if i < v.len() - 1 {
        assert(v[i].0 != v[v.len() - 1].0);
        assert(v.drop_last()[i] == v[i]);
        lemma_lookup_at(v.drop_last(), i);
    }
}

proof fn lemma_lookup_absent(v: Seq<(Seq<char>, Seq<CandleView>)>, key: Seq<char>)
    requires
        forall|i: int| 0 <= i < v.len() ==> #[trigger] v[i].0 != key,
    ensures
        lookup(v, key) == Seq::<CandleView>::empty(),
    decreases v.len(),
{
    if v.len() > 0 {
        lemma_lookup_absent(v.drop_last(), key);
    }
}

proof fn lemma_lookup_update(v: Seq<(Seq<char>, Seq<CandleView>)>, i: int, nb: Seq<CandleView>, key: Seq<char>)
    requires
        distinct_keys(v),
        0 <= i < v.len(),
    ensures
        lookup(v.update(i, (v[i].0, nb)), key) == (if key == v[i].0 { nb } else { lookup(v, key) }),
    decreases v.len(),
{
    let w = v.update(i, (v[i].0, nb));
    if i == v.len() - 1 {
        assert(w.drop_last() =~= v.drop_last());
    } else {
        assert(w.drop_last() =~= v.drop_last().update(i, (v[i].0, nb)));
        assert(w.last() == v.last());
        assert(v[i].0 != v[v.len() - 1].0);
        lemma_lookup_update(v.drop_last(), i, nb, key);
    }
}

/// One key's stored bars.
pub struct CacheEntry {
    key: String,
    bars: Vec<Candle>,
}

/// Cache of recent bars per symbol and interval, so that the trading loop reads
/// indicator input without database or REST round trips.
pub struct CandleCache {
    entries: Vec<CacheEntry>,
    max_size: usize,
}

impl CandleCache {
    /// The entries as (key, bars) pairs.
    pub closed spec fn entries_view(&self) -> Seq<(Seq<char>, Seq<CandleView>)> {
        self.entries@.map_values(|e: CacheEntry| (e.key@, candles_view(e.bars@)))
    }

    /// The bars stored under `key` (none when the key was never pushed).
    pub closed spec fn bars(&self, key: Seq<char>) -> Seq<CandleView> {
        lookup(self.entries_view(), key)
    }

    /// Most bars kept per key.
    pub closed spec fn capacity(&self) -> nat {
        self.max_size as nat
    }

    /// Internal consistency: keys are distinct, and no key holds more than the
    /// capacity or two bars with one timestamp.
    pub closed spec fn wf(&self) -> bool {
        &&& distinct_keys(self.entries_view())
        &&& forall|i: int| 0 <= i < self.entries@.len() ==> #[trigger] self.entries@[i].bars@.len() <= self.max_size
        &&& forall|i: int| 0 <= i < self.entries@.len() ==> distinct_timestamps(candles_view(#[trigger] self.entries@[i].bars@))
    }

    /// An empty cache keeping at most `max_size` bars per symbol and interval.
    pub fn new(max_size: usize) -> (r: Self)
        ensures
            r.wf(),
            r.capacity() == max_size,
            forall|k: Seq<char>| #[trigger] r.bars(k) == Seq::<CandleView>::empty(),
    {
        let r = CandleCache { entries: Vec::new(), max_size };
        assert(r.entries_view() =~= Seq::<(Seq<char>, Seq<CandleView>)>::empty());
        r
    }

    fn find(&self, key: &str) -> (r: Option<usize>)
        requires
            self.wf(),
        ensures
            match r {
                Some(i) => i < self.entries@.len() && self.entries_view()[i as int].0 == key@,
                None => forall|i: int| 0 <= i < self.entries@.len() ==> #[trigger] self.entries_view()[i].0 != key@,
            },
    {
        let mut i: usize = 0;
        while i < self.entries.len()
            invariant
                0 <= i <= self.entries@.len(),
                self.entries_view().len() == self.entries@.len(),
                forall|j: int| 0 <= j < i ==> #[trigger] self.entries_view()[j].0 != key@,
            decreases self.entries.len() - i,
        {
            assert(self.entries_view()[i as int].0 == self.entries@[i as int].key@);
            if str_equals(self.entries[i].key.as_str(), key) {
                return Some(i);
            }
            i = i + 1;
        }
        None
    }

    /// One bar pushed onto a key's bars (`push_step`).
    fn push_onto(bars: &mut Vec<Candle>, c: Candle, max_size: usize)
        requires
            old(bars)@.len() <= max_size,
            distinct_timestamps(candles_view(old(bars)@)),
        ensures
            candles_view(final(bars)@) == push_step(candles_view(old(bars)@), c@, max_size as nat),
            final(bars)@.len() <= max_size,
            distinct_timestamps(candles_view(final(bars)@)),
    {
        let ghost b = candles_view(bars@);
        let ghost cv = c@;
        let n = bars.len();
        let mut found: Option<usize> = None;
        let mut k: usize = 0;
        while k < n
            invariant
                n == bars@.len(),
                b == candles_view(bars@),
                cv == c@,
                0 <= k <= n,
                match found {
                    Some(i) => last_at(b.take(k as int), cv.timestamp) == Some(i as int),
                    None => last_at(b.take(k as int), cv.timestamp) is None,
                },
            decreases n - k,
        {
            proof {
                assert(b.take(k as int + 1).drop_last() =~= b.take(k as int));
                assert(b.take(k as int + 1).last() == bars@[k as int]@);
            }
            if bars[k].timestamp == c.timestamp {
                found = Some(k);
                assert(last_at(b.take(k as int + 1), cv.timestamp) == Some(k as int));
            } else {
                assert(last_at(b.take(k as int + 1), cv.timestamp) == last_at(b.take(k as int), cv.timestamp));
            }
            k = k + 1;
        }
        assert(b.take(n as int) =~= b);
        proof {
            lemma_last_at(b, cv.timestamp);
        }
        match found {
            Some(i) => {
                bars.set(i, c);
                assert(candles_view(bars@) =~= b.update(i as int, cv));
                assert forall|x: int, y: int| 0 <= x < y < candles_view(bars@).len() implies #[trigger] candles_view(bars@)[x].timestamp
                    != #[trigger] candles_view(bars@)[y].timestamp by {
                    if x == i {
                        assert(b[i as int].timestamp == cv.timestamp);
                    } else if y == i {
                        assert(b[i as int].timestamp == cv.timestamp);
                    }
                }
            },
            None => {
                bars.push(c);
                assert(candles_view(bars@) =~= b.push(cv));
                if bars.len() > max_size {
                    bars.remove(0);
                    assert(candles_view(bars@) =~= b.push(cv).drop_first());
                }
                assert forall|x: int, y: int| 0 <= x < y < b.push(cv).len() implies #[trigger] b.push(cv)[x].timestamp
                    != #[trigger] b.push(cv)[y].timestamp by {
                    if y == b.len() {
                        assert(b[x].timestamp != cv.timestamp);
                    }
                }
                assert forall|x: int, y: int| 0 <= x < y < candles_view(bars@).len() implies #[trigger] candles_view(bars@)[x].timestamp
                    != #[trigger] candles_view(bars@)[y].timestamp by {
                    if candles_view(bars@).len() < b.push(cv).len() {
                        assert(candles_view(bars@)[x] == b.push(cv)[x + 1]);
                        assert(candles_view(bars@)[y] == b.push(cv)[y + 1]);
                    } else {
                        assert(candles_view(bars@)[x] == b.push(cv)[x]);
                        assert(candles_view(bars@)[y] == b.push(cv)[y]);
                    }
                }
            },
        }
    }

    fn make_key(symbol: &str, interval: &str) -> (r: String)
        ensures
            r@ == cache_key(symbol@, interval@),
    {
        let mut key = String::from_str(symbol);
        key.append("_");
        key.append(interval);
        key
    }

    fn push_one(&mut self, c: Candle)
        requires
            old(self).wf(),
        ensures
            final(self).wf(),
            final(self).capacity() == old(self).capacity(),
            forall|k: Seq<char>| #[trigger] final(self).bars(k) == (if k == cache_key(c@.symbol, c@.interval) {
                push_step(old(self).bars(k), c@, old(self).capacity())
            } else {
                old(self).bars(k)
            }),
    {
        let ghost cv = c@;
        let ghost v = self.entries_view();
        let key = Self::make_key(c.symbol.as_str(), c.interval.as_str());
        match self.find(key.as_str()) {
            Some(i) => {
                proof {
                    lemma_lookup_at(v, i as int);
                }
                let mut entry = self.entries.remove(i);
                let ghost old_bars = candles_view(entry.bars@);
                assert(entry.bars@.len() <= self.max_size);
                Self::push_onto(&mut entry.bars, c, self.max_size);
                let ghost nb = candles_view(entry.bars@);
                self.entries.insert(i, entry);
                proof {
                    assert(self.entries_view() =~= v.update(i as int, (v[i as int].0, nb)));
                    assert forall|k: Seq<char>| #[trigger] self.bars(k) == (if k == cache_key(cv.symbol, cv.interval) {
                        push_step(lookup(v, k), cv, self.max_size as nat)
                    } else {
                        lookup(v, k)
                    }) by {
                        lemma_lookup_update(v, i as int, nb, k);
                    }
                    assert forall|a: int, b: int| 0 <= a < b < self.entries_view().len() implies #[trigger] self.entries_view()[a].0
                        != #[trigger] self.entries_view()[b].0 by {
                        assert(v[a].0 != v[b].0);
                    }
                    assert forall|j: int| 0 <= j < self.entries@.len() implies #[trigger] self.entries@[j].bars@.len()
                        <= self.max_size by {
                        if j != i {
                            assert(self.entries@[j] == old(self).entries@[j]);
                        }
                    }
                }
            },
            None => {
                proof {
                    lemma_lookup_absent(v, key@);
                }
                let mut bars: Vec<Candle> = Vec::new();
                assert(candles_view(bars@) =~= Seq::<CandleView>::empty());
                Self::push_onto(&mut bars, c, self.max_size);
                let ghost nb = candles_view(bars@);
                self.entries.push(CacheEntry { key, bars });
                proof {
                    assert(self.entries_view() =~= v.push((cache_key(cv.symbol, cv.interval), nb)));
                    assert(self.entries_view().drop_last() =~= v);
                    assert forall|a: int, b: int| 0 <= a < b < self.entries_view().len() implies #[trigger] self.entries_view()[a].0
                        != #[trigger] self.entries_view()[b].0 by {
                        if b == v.len() {
                            assert(v[a].0 != key@);
                        } else {
                            assert(v[a].0 != v[b].0);
                        }
                    }
                    assert forall|j: int| 0 <= j < self.entries@.len() implies #[trigger] self.entries@[j].bars@.len()
                        <= self.max_size by {
                        if j < v.len() {
                            assert(self.entries@[j] == old(self).entries@[j]);
                        }
                    }
                }
            },
        }
    }

    /// Pushes bars in order (`push_step` for each under its key): a bar with the
    /// timestamp of a bar stored under its key updates that bar, any other is
    /// appended and the oldest dropped beyond the capacity.
    pub fn push_bulk(&mut self, candles: Vec<Candle>)
        requires
            old(self).wf(),
        ensures
            final(self).wf(),
            final(self).capacity() == old(self).capacity(),
            forall|k: Seq<char>| #[trigger] final(self).bars(k) == bars_after(
                old(self).bars(k),
                candles_view(candles@),
                k,
                old(self).capacity(),
            ),
    {
        let ghost cs = candles_view(candles@);
        let ghost start = *self;
        let n = candles.len();
        let mut i: usize = 0;
        while i < n
            invariant
                n == candles.len(),
                cs == candles_view(candles@),
                0 <= i <= n,
                self.wf(),
                self.capacity() == start.capacity(),
                forall|k: Seq<char>| #[trigger] self.bars(k) == bars_after(start.bars(k), cs.take(i as int), k, start.capacity()),
            decreases n - i,
        {
            let c = candles[i].clone();
            assert(c@ == cs[i as int]);
            self.push_one(c);
            proof {
                assert(cs.take(i as int + 1).drop_last() =~= cs.take(i as int));
                assert(cs.take(i as int + 1).last() == cs[i as int]);
            }
            i = i + 1;
        }
        proof {
            assert(cs.take(n as int) =~= cs);
        }
    }

    /// The last `limit` bars of a symbol and interval, oldest first.
    pub fn get_latest(&self, symbol: &str, interval: &str, limit: usize) -> (r: Vec<Candle>)
        requires
            self.wf(),
        ensures
            candles_view(r@) == latest(self.bars(cache_key(symbol@, interval@)), limit as nat),
    {
        let key = Self::make_key(symbol, interval);
        let ghost v = self.entries_view();
        let mut out: Vec<Candle> = Vec::new();
        match self.find(key.as_str()) {
            Some(i) => {
                proof {
                    lemma_lookup_at(v, i as int);
                }
                let bars = &self.entries[i].bars;
                let ghost b = candles_view(bars@);
                let len = bars.len();
                let skip = if len > limit {
                    len - limit
                } else {
                    0
                };
                let mut j = skip;
                while j < len
                    invariant
                        b == candles_view(bars@),
                        len == bars@.len(),
                        skip <= j <= len,
                        candles_view(out@) == b.subrange(skip as int, j as int),
                    decreases len - j,
                {
                    let ghost before = candles_view(out@);
                    out.push(bars[j].clone());
                    assert(candles_view(out@) =~= before.push(b[j as int]));
                    assert(b.subrange(skip as int, j + 1) =~= b.subrange(skip as int, j as int).push(b[j as int]));
                    j = j + 1;
                }
                assert(candles_view(out@) =~= latest(b, limit as nat));
            },
            None => {
                proof {
                    lemma_lookup_absent(v, key@);
                }
                assert(candles_view(out@) =~= latest(Seq::<CandleView>::empty(), limit as nat));
            },
        }
        out
    }

    /// Seconds since the last bar of a symbol and interval at `now_ms` (epoch ms),
    /// whole seconds and never negative; `NO_DATA_AGE_SECS` when there is no bar.
    pub fn last_update_age_at(&self, symbol: &str, interval: &str, now_ms: i64) -> (r: u64)
        requires
            self.wf(),
        ensures
            self.bars(cache_key(symbol@, interval@)).len() == 0 ==> r == NO_DATA_AGE_SECS,
            self.bars(cache_key(symbol@, interval@)).len() > 0 ==> r == age_secs(
                self.bars(cache_key(symbol@, interval@)).last().timestamp,
                now_ms,
            ),
    {
        let key = Self::make_key(symbol, interval);
        let ghost v = self.entries_view();
        match self.find(key.as_str()) {
            Some(i) => {
                proof {
                    lemma_lookup_at(v, i as int);
                }
                let bars = &self.entries[i].bars;
                let len = bars.len();
                if len == 0 {
                    NO_DATA_AGE_SECS
                } else {
                    let ts = bars[len - 1].timestamp;
                    assert(candles_view(bars@).last() == bars@[len - 1]@);
                    if now_ms > ts {
                        ((now_ms as i128 - ts as i128) / 1000) as u64
                    } else {
                        0
                    }
                }
            },
            None => {
                proof {
                    lemma_lookup_absent(v, key@);
                }
                NO_DATA_AGE_SECS
            },
        }
    }

    /// Seconds since the last bar of a symbol and interval, by the clock now;
    /// `NO_DATA_AGE_SECS` when there is no bar.
    pub fn last_update_age(&self, symbol: &str, interval: &str) -> (r: u64)
        requires
            self.wf(),
        ensures
            self.bars(cache_key(symbol@, interval@)).len() == 0 ==> r == NO_DATA_AGE_SECS,
            self.bars(cache_key(symbol@, interval@)).len() > 0 ==> exists|now_ms: i64|
                now_ms >= 0 && r == #[trigger] age_secs(self.bars(cache_key(symbol@, interval@)).last().timestamp, now_ms),
    {
        let now = now_epoch_millis();
        self.last_update_age_at(symbol, interval, now)
    }

    /// Drops every bar.
    pub fn clear(&mut self)
        requires
            old(self).wf(),
        ensures
            final(self).wf(),
            final(self).capacity() == old(self).capacity(),
            forall|k: Seq<char>| #[trigger] final(self).bars(k) == Seq::<CandleView>::empty(),
    {
        self.entries = Vec::new();
        assert(self.entries_view() =~= Seq::<(Seq<char>, Seq<CandleView>)>::empty());
    }

    /// Number of bars of a symbol and interval.
    pub fn len(&self, symbol: &str, interval: &str) -> (r: usize)
        requires
            self.wf(),
        ensures
            r == self.bars(cache_key(symbol@, interval@)).len(),
            r <= self.capacity(),
    {
        let key = Self::make_key(symbol, interval);
        let ghost v = self.entries_view();
        match self.find(key.as_str()) {
            Some(i) => {
                proof {
                    lemma_lookup_at(v, i as int);
                }
                self.entries[i].bars.len()
            },
            None => {
                proof {
                    lemma_lookup_absent(v, key@);
                }
                0
            },
        }
    }
}

impl Default for CandleCache {
    fn default() -> (r: Self)
        ensures
            r.wf(),
            r.capacity() == DEFAULT_CACHE_SIZE,
            forall|k: Seq<char>| #[trigger] r.bars(k) == Seq::<CandleView>::empty(),
    {
        CandleCache::new(DEFAULT_CACHE_SIZE)
    }
}

/// Capacity, timestamps and freshness: pushing a bar onto at most `max` bars with
/// distinct timestamps, `max` at least one, keeps at most `max` bars, keeps the
/// timestamps distinct and stores the bar; a bar at a timestamp not yet stored
/// becomes the latest one.
pub proof fn law_push_keeps_latest(b: Seq<CandleView>, c: CandleView, max: nat)
    requires
        max >= 1,
        b.len() <= max,
        distinct_timestamps(b),
    ensures
        push_step(b, c, max).len() <= max,
        distinct_timestamps(push_step(b, c, max)),
        push_step(b, c, max).contains(c),
        last_at(b, c.timestamp) is None ==> latest(push_step(b, c, max), 1) == seq![c],
{
    lemma_last_at(b, c.timestamp);
    let r = push_step(b, c, max);
    match last_at(b, c.timestamp) {
        Some(i) => {
            assert(r[i] == c);
            assert forall|x: int, y: int| 0 <= x < y < r.len() implies #[trigger] r[x].timestamp != #[trigger] r[y].timestamp by {
                if x == i || y == i {
                    assert(b[i].timestamp == c.timestamp);
                }
            }
        },
        None => {
            let p = b.push(c);
            assert forall|x: int, y: int| 0 <= x < y < p.len() implies #[trigger] p[x].timestamp != #[trigger] p[y].timestamp by {
                if y == b.len() {
                    assert(b[x].timestamp != c.timestamp);
                }
            }
            if b.len() + 1 > max {
                assert forall|x: int, y: int| 0 <= x < y < r.len() implies #[trigger] r[x].timestamp != #[trigger] r[y].timestamp by {
                    assert(r[x] == p[x + 1] && r[y] == p[y + 1]);
                }
            }
            assert(r[r.len() - 1] == c);
            assert(latest(r, 1) =~= seq![c]);
        },
    }
}

/// Capacity and distinct timestamps: pushing any bars onto at most `max` bars with
/// distinct timestamps keeps at most `max` bars, no two with one timestamp.
pub proof fn law_bars_after_within_capacity(b: Seq<CandleView>, cs: Seq<CandleView>, key: Seq<char>, max: nat)
    requires
        b.len() <= max,
        distinct_timestamps(b),
    ensures
        bars_after(b, cs, key, max).len() <= max,
        distinct_timestamps(bars_after(b, cs, key, max)),
    decreases cs.len(),
{
    if cs.len() > 0 {
        law_bars_after_within_capacity(b, cs.drop_last(), key, max);
        if max >= 1 {
            law_push_keeps_latest(bars_after(b, cs.drop_last(), key, max), cs.last(), max);
        } else {
            let prev = bars_after(b, cs.drop_last(), key, max);
            lemma_last_at(prev, cs.last().timestamp);
            assert(prev.len() == 0);
            assert(prev.push(cs.last()).drop_first() =~= Seq::<CandleView>::empty());
        }
    }
}

/// A batch that holds no bar of a key leaves that key's bars as they were.
pub proof fn law_other_keys_untouched(b: Seq<CandleView>, cs: Seq<CandleView>, key: Seq<char>, max: nat)
    requires
        forall|i: int| 0 <= i < cs.len() ==> cache_key(#[trigger] cs[i].symbol, cs[i].interval) != key,
    ensures
        bars_after(b, cs, key, max) == b,
    decreases cs.len(),
{
    if cs.len() > 0 {
        assert forall|i: int| 0 <= i < cs.drop_last().len() implies cache_key(
            #[trigger] cs.drop_last()[i].symbol,
            cs.drop_last()[i].interval,
        ) != key by {
            assert(cs.drop_last()[i] == cs[i]);
        }
        law_other_keys_untouched(b, cs.drop_last(), key, max);
        assert(cache_key(cs[cs.len() - 1].symbol, cs[cs.len() - 1].interval) != key);
    }
}

/// Read after write: after a batch of pushes, with a capacity of at least one, the
/// bars under the key of the batch's last bar hold that bar, and it is the latest
/// one when no earlier bar of the key had its timestamp.
pub proof fn law_read_after_write(b: Seq<CandleView>, cs: Seq<CandleView>, max: nat)
    requires
        max >= 1,
        b.len() <= max,
        distinct_timestamps(b),
        cs.len() > 0,
    ensures
        bars_after(b, cs, cache_key(cs.last().symbol, cs.last().interval), max).contains(cs.last()),
        last_at(bars_after(b, cs.drop_last(), cache_key(cs.last().symbol, cs.last().interval), max), cs.last().timestamp) is None
            ==> latest(bars_after(b, cs, cache_key(cs.last().symbol, cs.last().interval), max), 1) == seq![cs.last()],
{
    let k = cache_key(cs.last().symbol, cs.last().interval);
    law_bars_after_within_capacity(b, cs.drop_last(), k, max);
    law_push_keeps_latest(bars_after(b, cs.drop_last(), k, max), cs.last(), max);
}

/// A bar whose timestamp is stored replaces that stored bar in place, wherever it
/// stands (a key never holds two bars of one timestamp); any other bar is appended
/// after the bars already kept, the oldest dropped at capacity.
pub proof fn law_push_appends_or_replaces(b: Seq<CandleView>, c: CandleView, max: nat, i: int)
    requires
        max >= 1,
        b.len() <= max,
        distinct_timestamps(b),
    ensures
        0 <= i < b.len() && b[i].timestamp == c.timestamp ==> push_step(b, c, max) == b.update(i, c),
        (forall|j: int| 0 <= j < b.len() ==> #[trigger] b[j].timestamp != c.timestamp) && b.len() < max ==> push_step(b, c, max)
            == b.push(c),
        (forall|j: int| 0 <= j < b.len() ==> #[trigger] b[j].timestamp != c.timestamp) && b.len() == max ==> push_step(b, c, max)
            == b.subrange(1, b.len() as int).push(c),
{
    lemma_last_at(b, c.timestamp);
    if 0 <= i < b.len() && b[i].timestamp == c.timestamp {
        match last_at(b, c.timestamp) {
            Some(k) => {
                if k != i {
                    if k < i {
                        assert(b[k].timestamp != b[i].timestamp);
                    } else {
                        assert(b[i].timestamp != b[k].timestamp);
                    }
                }
            },
            None => {
                assert(b[i].timestamp != c.timestamp);
            },
        }
    }
    if (forall|j: int| 0 <= j < b.len() ==> #[trigger] b[j].timestamp != c.timestamp) {
        match last_at(b, c.timestamp) {
            Some(k) => {
                assert(b[k].timestamp != c.timestamp);
            },
            None => {},
        }
        if b.len() == max {
            assert(b.push(c).drop_first() =~= b.subrange(1, b.len() as int).push(c));
        }
    }
}

} // verus!
