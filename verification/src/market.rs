//! Market data: candles, the per-symbol aggregate with its hot caches, and
//! the symbol registry with reference-counted eviction.

use vstd::prelude::*;
use crate::buffer::RollingBuffer;
use crate::common::TimeFrame;
use crate::money::{Money, MONEY_MAX_RAW};

verus! {

/// One time-bucketed quote. Prices are fixed-point monetary values; any
/// floating-point wire format is converted at the boundary.
#[derive(Clone, Copy, Debug)]
pub struct Candle {
    /// Bar start time, in milliseconds since the epoch.
    pub time_ms: i64,
    pub open: Money,
    pub high: Money,
    pub low: Money,
    pub close: Money,
    pub adj_close: Option<Money>,
    pub volume: Money,
    /// Whether the bar has closed.
    pub is_final: bool,
}

/// A candle's prices are ordered (`low <= open, close <= high`), all its
/// fields lie in the representable range, and its time lies in the year
/// range the RFC3339 wire format carries.
pub open spec fn candle_wf(c: Candle) -> bool {
    &&& 0 <= c.low@
    &&& c.low@ <= c.open@ <= c.high@
    &&& c.low@ <= c.close@ <= c.high@
    &&& c.high@ <= MONEY_MAX_RAW as int
    &&& 0 <= c.volume@ <= MONEY_MAX_RAW as int
    &&& match c.adj_close {
        Some(a) => 0 <= a@ <= MONEY_MAX_RAW as int,
        None => true,
    }
    &&& crate::codec::RFC3339_MIN_MS as int <= c.time_ms <= crate::codec::RFC3339_MAX_MS as int
}

impl Candle {
    /// Runtime check of `candle_wf`, for data arriving from outside the
    /// verified boundary.
    pub fn is_well_formed(&self) -> (r: bool)
        ensures
            r == candle_wf(*self),
    {
        let limit = Money::from_raw(MONEY_MAX_RAW);
        !self.low.is_neg() && self.low.le(self.open) && self.open.le(self.high) && self.low.le(
            self.close,
        ) && self.close.le(self.high) && self.high.le(limit) && !self.volume.is_neg()
            && self.volume.le(limit) && (match self.adj_close {
            Some(a) => !a.is_neg() && a.le(limit),
            None => true,
        }) && crate::codec::RFC3339_MIN_MS <= self.time_ms && self.time_ms
            <= crate::codec::RFC3339_MAX_MS
    }
}

/// Errors of the market-data layer.
#[derive(Clone, Debug, PartialEq)]
pub enum MarketError {
    Network(String),
    Parse(String),
    NotFound,
    Unknown(String),
}

/// Coarse run state of one symbol aggregate.
#[derive(Clone, Copy, Debug, PartialEq, Eq, Structural)]
pub enum StockStatus {
    Initializing,
    Online,
    Offline,
    Faulted,
}

/// Number of candles each per-timeframe rolling window retains.
pub const AGGREGATE_HISTORY_CAPACITY: usize = 200;

/// Hot cache kept per timeframe: the forming bar, the last closed bar and
/// a bounded window of recent bars.
pub struct TimeFrameCache {
    pub latest: Option<Candle>,
    pub last_closed: Option<Candle>,
    pub history: RollingBuffer<Candle>,
}

impl TimeFrameCache {
    pub open spec fn wf(&self) -> bool {
        &&& self.history.wf()
        &&& self.history.spec_capacity() == AGGREGATE_HISTORY_CAPACITY as int
    }

    /// An empty cache.
    pub fn new() -> (r: TimeFrameCache)
        ensures
            r.wf(),
            r.latest is None,
            r.last_closed is None,
            r.history@.len() == 0,
    {
        TimeFrameCache {
            latest: None,
            last_closed: None,
            history: RollingBuffer::new(AGGREGATE_HISTORY_CAPACITY),
        }
    }

    /// Record one incoming candle: it becomes the forming bar, becomes the
    /// last closed bar when final, and enters the rolling window.
    pub fn apply(&mut self, candle: Candle)
        requires
            old(self).wf(),
        ensures
            final(self).wf(),
            final(self).latest == Some(candle),
            final(self).last_closed == if candle.is_final {
                Some(candle)
            } else {
                old(self).last_closed
            },
            final(self).history@ == if old(self).history@.len()
                < old(self).history.spec_capacity() {
                old(self).history@.push(candle)
            } else {
                old(self).history@.subrange(1, old(self).history@.len() as int).push(candle)
            },
    {
        self.latest = Some(candle);
        if candle.is_final {
            self.last_closed = Some(candle);
        }
        self.history.push(candle);
    }
}

/// The per-symbol aggregate's cache state: the current price and one
/// `TimeFrameCache` per timeframe. The aggregate moves to `Online` as soon
/// as data arrives.
pub struct MarketAggregate {
    pub symbol: String,
    pub current_price: Option<Money>,
    pub minute1: TimeFrameCache,
    pub minute5: TimeFrameCache,
    pub hour1: TimeFrameCache,
    pub day1: TimeFrameCache,
    pub status: StockStatus,
}

impl MarketAggregate {
    pub open spec fn wf(&self) -> bool {
        &&& self.minute1.wf()
        &&& self.minute5.wf()
        &&& self.hour1.wf()
        &&& self.day1.wf()
    }

    /// The cache of one timeframe.
    pub open spec fn spec_cache(&self, tf: TimeFrame) -> TimeFrameCache {
        match tf {
            TimeFrame::Minute1 => self.minute1,
            TimeFrame::Minute5 => self.minute5,
            TimeFrame::Hour1 => self.hour1,
            TimeFrame::Day1 => self.day1,
        }
    }

    /// A fresh aggregate for `symbol`, still initializing and without a
    /// quote.
    pub fn new(symbol: String) -> (r: MarketAggregate)
        ensures
            r.wf(),
            r.symbol == symbol,
            r.current_price is None,
            r.status is Initializing,
            forall|tf: TimeFrame| {
                &&& (#[trigger] r.spec_cache(tf)).latest is None
                &&& r.spec_cache(tf).last_closed is None
                &&& r.spec_cache(tf).history@.len() == 0
            },
    {
        MarketAggregate {
            symbol,
            current_price: None,
            minute1: TimeFrameCache::new(),
            minute5: TimeFrameCache::new(),
            hour1: TimeFrameCache::new(),
            day1: TimeFrameCache::new(),
            status: StockStatus::Initializing,
        }
    }

    /// Record one incoming candle for `timeframe`: the current price
    /// becomes the candle's close, the timeframe's cache takes the candle,
    /// every other timeframe is untouched, and the aggregate is `Online`.
    pub fn apply_candle(&mut self, candle: Candle, timeframe: TimeFrame)
        requires
            old(self).wf(),
        ensures
            final(self).wf(),
            final(self).symbol == old(self).symbol,
            final(self).current_price == Some(candle.close),
            final(self).status is Online,
            ({
                let pre = old(self).spec_cache(timeframe);
                let post = final(self).spec_cache(timeframe);
                &&& post.latest == Some(candle)
                &&& post.last_closed == if candle.is_final {
                    Some(candle)
                } else {
                    pre.last_closed
                }
                &&& post.history@ == if pre.history@.len() < pre.history.spec_capacity() {
                    pre.history@.push(candle)
                } else {
                    pre.history@.subrange(1, pre.history@.len() as int).push(candle)
                }
            }),
            (forall|tf: TimeFrame|
                tf != timeframe ==> #[trigger] final(self).spec_cache(tf) == old(self).spec_cache(
                    tf,
                )),
    {
        self.current_price = Some(candle.close);
        match timeframe {
            TimeFrame::Minute1 => self.minute1.apply(candle),
            TimeFrame::Minute5 => self.minute5.apply(candle),
            TimeFrame::Hour1 => self.hour1.apply(candle),
            TimeFrame::Day1 => self.day1.apply(candle),
        }
        self.status = StockStatus::Online;
    }

    /// The current price, if a candle has arrived.
    pub fn current_price(&self) -> (r: Option<Money>)
        ensures
            r == self.current_price,
    {
        self.current_price
    }

    /// The forming bar of `timeframe`.
    pub fn latest_candle(&self, timeframe: TimeFrame) -> (r: Option<Candle>)
        ensures
            r == self.spec_cache(timeframe).latest,
    {
        match timeframe {
            TimeFrame::Minute1 => self.minute1.latest,
            TimeFrame::Minute5 => self.minute5.latest,
            TimeFrame::Hour1 => self.hour1.latest,
            TimeFrame::Day1 => self.day1.latest,
        }
    }

    /// The last closed bar of `timeframe`.
    pub fn last_closed_candle(&self, timeframe: TimeFrame) -> (r: Option<Candle>)
        ensures
            r == self.spec_cache(timeframe).last_closed,
    {
        match timeframe {
            TimeFrame::Minute1 => self.minute1.last_closed,
            TimeFrame::Minute5 => self.minute5.last_closed,
            TimeFrame::Hour1 => self.hour1.last_closed,
            TimeFrame::Day1 => self.day1.last_closed,
        }
    }

    /// The retained recent bars of `timeframe`, oldest first.
    pub fn recent_candles(&self, timeframe: TimeFrame) -> (r: Vec<Candle>)
        requires
            self.wf(),
        ensures
            r@ == self.spec_cache(timeframe).history@,
    {
        match timeframe {
            TimeFrame::Minute1 => self.minute1.history.to_vec(),
            TimeFrame::Minute5 => self.minute5.history.to_vec(),
            TimeFrame::Hour1 => self.hour1.history.to_vec(),
            TimeFrame::Day1 => self.day1.history.to_vec(),
        }
    }

    /// Mark the aggregate as failed after an unrecoverable provider error.
    pub fn mark_faulted(&mut self)
        requires
            old(self).wf(),
        ensures
            final(self).wf(),
            *final(self) == (MarketAggregate { status: StockStatus::Faulted, ..*old(self) }),
    {
        self.status = StockStatus::Faulted;
    }

    /// The aggregate's run state.
    pub fn status(&self) -> (r: StockStatus)
        ensures
            r == self.status,
    {
        self.status
    }
}

/// Read-through history: the local store's answer when it has any bars,
/// else the upstream provider's.
pub fn select_history(local: Vec<Candle>, upstream: Vec<Candle>) -> (r: Vec<Candle>)
    ensures
        r@ == if local@.len() > 0 {
            local@
        } else {
            upstream@
        },
{
    if local.is_empty() {
        upstream
    } else {
        local
    }
}

/// One registry entry: a symbol bound to the identity of its live
/// aggregate and the number of strong consumers holding it.
pub struct RegistryEntry {
    pub symbol: String,
    pub aggregate_id: u64,
    pub consumers: u64,
}

/// The market registry: symbol to aggregate identity, with a cleanup
/// queue fed when the last consumer of an aggregate drops it.
pub struct MarketRegistry {
    pub entries: Vec<RegistryEntry>,
    pub next_id: u64,
    pub cleanup_queue: Vec<String>,
}

/// The registry entry for `sym`, if any.
pub open spec fn find_entry(es: Seq<RegistryEntry>, sym: Seq<char>) -> Option<RegistryEntry>
    decreases es.len(),
{
    if es.len() == 0 {
        None
    } else if es.last().symbol@ == sym {
        Some(es.last())
    } else {
        find_entry(es.drop_last(), sym)
    }
}

/// Registry invariant: one entry per symbol, and identifiers already
/// handed out stay below `next_id`.
pub open spec fn registry_wf(r: MarketRegistry) -> bool {
    &&& forall|i: int, j: int|
        0 <= i < j < r.entries@.len() ==> r.entries@[i].symbol@ != r.entries@[j].symbol@
    &&& forall|i: int|
        0 <= i < r.entries@.len() ==> (#[trigger] r.entries@[i]).aggregate_id < r.next_id
}

pub proof fn lemma_find_entry_at(es: Seq<RegistryEntry>, sym: Seq<char>, i: int)
    requires
        forall|p: int, q: int| 0 <= p < q < es.len() ==> es[p].symbol@ != es[q].symbol@,
        0 <= i < es.len(),
        es[i].symbol@ == sym,
    ensures
        find_entry(es, sym) == Some(es[i]),
    decreases es.len(),
{
    if i == es.len() - 1 {
    } else {
        assert(es.last().symbol@ != sym);
        assert(es.drop_last()[i] == es[i]);
        lemma_find_entry_at(es.drop_last(), sym, i);
    }
}

pub proof fn lemma_find_entry_absent(es: Seq<RegistryEntry>, sym: Seq<char>)
    requires
        forall|i: int| 0 <= i < es.len() ==> (#[trigger] es[i]).symbol@ != sym,
    ensures
        find_entry(es, sym) is None,
    decreases es.len(),
{
    if es.len() > 0 {
        lemma_find_entry_absent(es.drop_last(), sym);
    }
}

pub proof fn lemma_find_entry_update(es: Seq<RegistryEntry>, i: int, e: RegistryEntry, sym: Seq<char>)
    requires
        forall|p: int, q: int| 0 <= p < q < es.len() ==> es[p].symbol@ != es[q].symbol@,
        0 <= i < es.len(),
        e.symbol@ == es[i].symbol@,
    ensures
        find_entry(es.update(i, e), es[i].symbol@) == Some(e),
        sym != es[i].symbol@ ==> find_entry(es.update(i, e), sym) == find_entry(es, sym),
    decreases es.len(),
{
    let es2 = es.update(i, e);
    assert(forall|k: int| 0 <= k < es.len() && k != i ==> es2[k] == es[k]);
    lemma_find_entry_at(es2, es[i].symbol@, i);
    if sym != es[i].symbol@ {
        if i == es.len() - 1 {
            assert(es2.drop_last() =~= es.drop_last());
        } else {
            if es.last().symbol@ == sym {
                assert(es2.last() == es.last());
            } else {
                assert(es2.drop_last() =~= es.drop_last().update(i, e));
                lemma_find_entry_update(es.drop_last(), i, e, sym);
            }
        }
    }
}

impl MarketRegistry {
    /// An empty registry.
    pub fn new() -> (r: MarketRegistry)
        ensures
            registry_wf(r),
            r.entries@.len() == 0,
            r.cleanup_queue@.len() == 0,
    {
        MarketRegistry { entries: Vec::new(), next_id: 0, cleanup_queue: Vec::new() }
    }

    /// Index of the entry for `symbol`, if present.
    fn find_index(&self, symbol: &str) -> (r: Option<usize>)
        requires
            registry_wf(*self),
        ensures
            match r {
                Some(i) => {
                    &&& i < self.entries@.len()
                    &&& self.entries@[i as int].symbol@ == symbol@
                    &&& find_entry(self.entries@, symbol@) == Some(self.entries@[i as int])
                },
                None => {
                    &&& find_entry(self.entries@, symbol@) is None
                    &&& forall|j: int|
                        0 <= j < self.entries@.len() ==> (#[trigger] self.entries@[j]).symbol@
                            != symbol@
                },
            },
    {
        let n = self.entries.len();
        let mut i: usize = 0;
        while i < n
            invariant
                n == self.entries@.len(),
                i <= n,
                registry_wf(*self),
                forall|j: int| 0 <= j < i ==> (#[trigger] self.entries@[j]).symbol@ != symbol@,
            decreases n - i,
        {
            if crate::strutil::str_eq(self.entries[i].symbol.as_str(), symbol) {
                proof {
                    lemma_find_entry_at(self.entries@, symbol@, i as int);
                }
                return Some(i);
            }
            i += 1;
        }
        proof {
            lemma_find_entry_absent(self.entries@, symbol@);
        }
        None
    }

    /// The aggregate identity and consumer count registered for `symbol`.
    pub fn lookup(&self, symbol: &str) -> (r: Option<(u64, u64)>)
        requires
            registry_wf(*self),
        ensures
            match r {
                Some(pair) => find_entry(self.entries@, symbol@) matches Some(e)
                    && e.aggregate_id == pair.0 && e.consumers == pair.1,
                None => find_entry(self.entries@, symbol@) is None,
            },
    {
        match self.find_index(symbol) {
            Some(i) => Some((self.entries[i].aggregate_id, self.entries[i].consumers)),
            None => None,
        }
    }

    /// Hand out the aggregate for `symbol`, creating one when no live
    /// aggregate exists. Registry freshness: while the existing aggregate
    /// still has any consumer, the same aggregate identity is returned;
    /// only an entry without consumers may be superseded by a fresh one.
    pub fn acquire(&mut self, symbol: &str) -> (r: u64)
        requires
            registry_wf(*old(self)),
            old(self).next_id < u64::MAX,
            forall|i: int|
                0 <= i < old(self).entries@.len() ==> (#[trigger] old(
                    self,
                ).entries@[i]).consumers < u64::MAX,
        ensures
            registry_wf(*final(self)),
            final(self).cleanup_queue == old(self).cleanup_queue,
            (match find_entry(old(self).entries@, symbol@) {
                Some(e) => e.consumers > 0 ==> {
                    &&& r == e.aggregate_id
                    &&& find_entry(final(self).entries@, symbol@) == Some(
                        RegistryEntry {
                            symbol: e.symbol,
                            aggregate_id: e.aggregate_id,
                            consumers: (e.consumers + 1) as u64,
                        },
                    )
                },
                None => true,
            }),
            (match find_entry(old(self).entries@, symbol@) {
                Some(e) => e.consumers == 0 ==> {
                    &&& r == old(self).next_id
                    &&& find_entry(final(self).entries@, symbol@) matches Some(cur)
                        && cur.aggregate_id == r && cur.consumers == 1
                },
                None => {
                    &&& r == old(self).next_id
                    &&& find_entry(final(self).entries@, symbol@) matches Some(cur)
                        && cur.aggregate_id == r && cur.consumers == 1
                },
            }),
            forall|s: Seq<char>|
                s != symbol@ ==> find_entry(final(self).entries@, s) == find_entry(
                    old(self).entries@,
                    s,
                ),
    {
        let ghost es0 = self.entries@;
        match self.find_index(symbol) {
            Some(i) => {
                let e = &self.entries[i];
                if e.consumers > 0 {
                    let id = e.aggregate_id;
                    let updated = RegistryEntry {
                        symbol: e.symbol.clone(),
                        aggregate_id: id,
                        consumers: e.consumers + 1,
                    };
                    proof {
                        lemma_find_entry_update(es0, i as int, updated, symbol@);
                        assert forall|s: Seq<char>| s != symbol@ implies find_entry(
                            es0.update(i as int, updated),
                            s,
                        ) == find_entry(es0, s) by {
                            lemma_find_entry_update(es0, i as int, updated, s);
                        }
                    }
                    self.entries.set(i, updated);
                    id
                } else {
                    let id = self.next_id;
                    let updated = RegistryEntry {
                        symbol: e.symbol.clone(),
                        aggregate_id: id,
                        consumers: 1,
                    };
                    proof {
                        lemma_find_entry_update(es0, i as int, updated, symbol@);
                        assert forall|s: Seq<char>| s != symbol@ implies find_entry(
                            es0.update(i as int, updated),
                            s,
                        ) == find_entry(es0, s) by {
                            lemma_find_entry_update(es0, i as int, updated, s);
                        }
                    }
                    self.entries.set(i, updated);
                    self.next_id = self.next_id + 1;
                    id
                }
            },
            None => {
                let id = self.next_id;
                let fresh = RegistryEntry {
                    symbol: symbol.to_owned(),
                    aggregate_id: id,
                    consumers: 1,
                };
                proof {
                    assert(es0.push(fresh).last() == fresh);
                    assert(es0.push(fresh).drop_last() =~= es0);
                    assert forall|s: Seq<char>| s != symbol@ implies find_entry(
                        es0.push(fresh),
                        s,
                    ) == find_entry(es0, s) by {
                        assert(es0.push(fresh).drop_last() =~= es0);
                    }
                }
                self.entries.push(fresh);
                self.next_id = self.next_id + 1;
                id
            },
        }
    }

    /// Drop one consumer of `symbol`'s aggregate. When the last consumer
    /// goes, the symbol is enqueued for cleanup, mirroring the aggregate's
    /// self-eviction signal on drop.
    pub fn release(&mut self, symbol: &str)
        requires
            registry_wf(*old(self)),
        ensures
            registry_wf(*final(self)),
            match find_entry(old(self).entries@, symbol@) {
                Some(e) => {
                    &&& find_entry(final(self).entries@, symbol@) == Some(
                        RegistryEntry {
                            symbol: e.symbol,
                            aggregate_id: e.aggregate_id,
                            consumers: if e.consumers > 0 {
                                (e.consumers - 1) as u64
                            } else {
                                0
                            },
                        },
                    )
                    &&& (e.consumers == 1 ==> final(self).cleanup_queue@ == old(
                        self,
                    ).cleanup_queue@.push(e.symbol))
                    &&& (e.consumers != 1 ==> final(self).cleanup_queue == old(
                        self,
                    ).cleanup_queue)
                },
                None => *final(self) == *old(self),
            },
            forall|s: Seq<char>|
                s != symbol@ ==> find_entry(final(self).entries@, s) == find_entry(
                    old(self).entries@,
                    s,
                ),
    {
        let ghost es0 = self.entries@;
        match self.find_index(symbol) {
            Some(i) => {
                let e = &self.entries[i];
                let remaining = if e.consumers > 0 {
                    e.consumers - 1
                } else {
                    0
                };
                let updated = RegistryEntry {
                    symbol: e.symbol.clone(),
                    aggregate_id: e.aggregate_id,
                    consumers: remaining,
                };
                let was_last = e.consumers == 1;
                let ghost sym_string = self.entries@[i as int].symbol;
                let queued = if was_last {
                    Some(self.entries[i].symbol.clone())
                } else {
                    None
                };
                proof {
                    lemma_find_entry_update(es0, i as int, updated, symbol@);
                    assert forall|s: Seq<char>| s != symbol@ implies find_entry(
                        es0.update(i as int, updated),
                        s,
                    ) == find_entry(es0, s) by {
                        lemma_find_entry_update(es0, i as int, updated, s);
                    }
                }
                self.entries.set(i, updated);
                match queued {
                    Some(sym) => {
                        self.cleanup_queue.push(sym);
                    },
                    None => {},
                }
            },
            None => {},
        }
    }

    /// Drain the cleanup queue: every queued symbol whose entry has no
    /// consumer left loses its registry entry; entries re-acquired in the
    /// meantime stay.
    pub fn drain_cleanup(&mut self)
        requires
            registry_wf(*old(self)),
        ensures
            registry_wf(*final(self)),
            final(self).cleanup_queue@.len() == 0,
            forall|s: Seq<char>|
                #[trigger] find_entry(final(self).entries@, s) == (
                if exists|k: int|
                    0 <= k < old(self).cleanup_queue@.len() && old(self).cleanup_queue@[k]@ == s {
                    if find_entry(old(self).entries@, s) matches Some(e) && e.consumers == 0 {
                        None::<RegistryEntry>
                    } else {
                        find_entry(old(self).entries@, s)
                    }
                } else {
                    find_entry(old(self).entries@, s)
                }),
    {
        let ghost queue0 = self.cleanup_queue@;
        let ghost es_start = self.entries@;
        let mut qi: usize = 0;
        let qn = self.cleanup_queue.len();
        while qi < qn
            invariant
                registry_wf(*self),
                qn == queue0.len(),
                qi <= qn,
                self.cleanup_queue@ == queue0,
                forall|s: Seq<char>|
                    #[trigger] find_entry(self.entries@, s) == (
                    if exists|k: int| 0 <= k < qi && queue0[k]@ == s {
                        if find_entry(es_start, s) matches Some(e) && e.consumers == 0 {
                            None::<RegistryEntry>
                        } else {
                            find_entry(es_start, s)
                        }
                    } else {
                        find_entry(es_start, s)
                    }),
            decreases qn - qi,
        {
            let ghost es_pre = self.entries@;
            let sym_owned = self.cleanup_queue[qi].clone();
            let sym = sym_owned.as_str();
            match self.find_index(sym) {
                Some(i) => {
                    if self.entries[i].consumers == 0 {
                        proof {
                            lemma_find_entry_remove_all(es_pre, i as int);
                        }
                        let _ = self.entries.remove(i);
                    }
                },
                None => {},
            }
            proof {
                assert forall|s: Seq<char>| true implies #[trigger] find_entry(self.entries@, s)
                    == (if exists|k: int| 0 <= k < qi + 1 && queue0[k]@ == s {
                    if find_entry(es_start, s) matches Some(e) && e.consumers == 0 {
                        None::<RegistryEntry>
                    } else {
                        find_entry(es_start, s)
                    }
                } else {
                    find_entry(es_start, s)
                }) by {
                    if s == sym_owned@ {
                        assert(queue0[qi as int]@ == s);
                    }
                }
            }
            qi += 1;
        }
        self.cleanup_queue.clear();
    }
}

/// Removing entry `i` erases its symbol and leaves every other symbol's
/// entry unchanged.
proof fn lemma_find_entry_remove_all(es: Seq<RegistryEntry>, i: int)
    requires
        forall|p: int, q: int| 0 <= p < q < es.len() ==> es[p].symbol@ != es[q].symbol@,
        0 <= i < es.len(),
    ensures
        find_entry(es.remove(i), es[i].symbol@) is None,
        forall|s: Seq<char>|
            s != es[i].symbol@ ==> #[trigger] find_entry(es.remove(i), s) == find_entry(es, s),
        forall|p: int, q: int|
            0 <= p < q < es.remove(i).len() ==> es.remove(i)[p].symbol@ != es.remove(i)[q].symbol@,
    decreases es.len(),
{
    let es2 = es.remove(i);
    assert(forall|k: int| 0 <= k < i ==> es2[k] == es[k]);
    assert(forall|k: int| i <= k < es2.len() ==> es2[k] == es[k + 1]);
    assert(forall|k: int| 0 <= k < es2.len() ==> (#[trigger] es2[k]).symbol@ != es[i].symbol@);
    lemma_find_entry_absent(es2, es[i].symbol@);
    assert forall|s: Seq<char>| s != es[i].symbol@ implies #[trigger] find_entry(es2, s)
        == find_entry(es, s) by {
        lemma_find_entry_remove_one(es, i, s);
    }
}

proof fn lemma_find_entry_remove_one(es: Seq<RegistryEntry>, i: int, s: Seq<char>)
    requires
        forall|p: int, q: int| 0 <= p < q < es.len() ==> es[p].symbol@ != es[q].symbol@,
        0 <= i < es.len(),
        s != es[i].symbol@,
    ensures
        find_entry(es.remove(i), s) == find_entry(es, s),
    decreases es.len(),
{
    let es2 = es.remove(i);
    if i == es.len() - 1 {
        assert(es2 =~= es.drop_last());
    } else {
        assert(es2.last() == es.last());
        if es.last().symbol@ == s {
        } else {
            assert(es2.drop_last() =~= es.drop_last().remove(i));
            lemma_find_entry_remove_one(es.drop_last(), i, s);
        }
    }
}

} // verus!
