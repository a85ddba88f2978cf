//! The backtest driver: it owns the controlled clock and replays a
//! historical candle series, ticking the trade service's pending book on
//! each bar so limit orders can cross.

use vstd::prelude::*;
use crate::common::FakeClockProvider;
use crate::market::{Candle, candle_wf};
use crate::orders::Order;
use crate::pending::find_order;
use crate::service::{TradeService, find_quote, service_wf, tick_keeps};

verus! {

/// Whether an order survives a whole replayed series: no bar of the
/// series crosses it.
pub open spec fn run_keeps(o: Order, sym: Seq<char>, candles: Seq<Candle>) -> bool {
    forall|k: int| 0 <= k < candles.len() ==> tick_keeps(o, sym, #[trigger] candles[k])
}

/// Drives a virtual clock and the pending-order matching over a candle
/// series.
pub struct BacktestDriver {
    pub time_provider: FakeClockProvider,
}

impl BacktestDriver {
    /// A driver over the given controlled clock.
    pub fn new(time_provider: FakeClockProvider) -> (r: BacktestDriver)
        ensures
            r.time_provider == time_provider,
    {
        BacktestDriver { time_provider }
    }

    /// Replay `candles` in order on `symbol`: for each bar the clock is
    /// set to the bar's time, the service's quote and clock follow, and
    /// the pending book is ticked; tick errors never abort the run. After
    /// the run the clock stands at the last bar's time.
    pub fn run(&mut self, service: &mut TradeService, symbol: &str, candles: &Vec<Candle>) -> (r:
        Result<(), String>)
        requires
            service_wf(*old(service)),
            forall|i: int| 0 <= i < candles@.len() ==> candle_wf(#[trigger] candles@[i]),
        ensures
            r is Ok,
            service_wf(*final(service)),
            candles@.len() > 0 ==> {
                &&& final(self).time_provider.current_ms == candles@.last().time_ms
                &&& final(service).clock_ms == candles@.last().time_ms
                &&& find_quote(final(service).quotes@, symbol@) == Some(candles@.last().close@)
            },
            candles@.len() == 0 ==> *final(self) == *old(self) && *final(service) == *old(
                service,
            ),
            (forall|s: Seq<char>|
                s != symbol@ ==> #[trigger] find_quote(final(service).quotes@, s) == find_quote(
                    old(service).quotes@,
                    s,
                )),
            (forall|oid: Seq<char>|
                #[trigger] find_order(final(service).pending.orders@, oid) == (match find_order(
                    old(service).pending.orders@,
                    oid,
                ) {
                    Some(o) => if run_keeps(o, symbol@, candles@) {
                        Some(o)
                    } else {
                        None::<Order>
                    },
                    None => None::<Order>,
                })),
    {
        let n = candles.len();
        let mut i: usize = 0;
        while i < n
            invariant
                n == candles@.len(),
                i <= n,
                service_wf(*service),
                forall|k: int| 0 <= k < candles@.len() ==> candle_wf(#[trigger] candles@[k]),
                i == 0 ==> *self == *old(self) && *service == *old(service),
                i > 0 ==> self.time_provider.current_ms == candles@[i - 1].time_ms
                    && service.clock_ms == candles@[i - 1].time_ms && find_quote(
                    service.quotes@,
                    symbol@,
                ) == Some(candles@[i - 1].close@),
                (forall|s: Seq<char>|
                    s != symbol@ ==> #[trigger] find_quote(service.quotes@, s) == find_quote(
                        old(service).quotes@,
                        s,
                    )),
                (forall|oid: Seq<char>|
                    #[trigger] find_order(service.pending.orders@, oid) == (match find_order(
                        old(service).pending.orders@,
                        oid,
                    ) {
                        Some(o) => if run_keeps(o, symbol@, candles@.subrange(0, i as int)) {
                            Some(o)
                        } else {
                            None::<Order>
                        },
                        None => None::<Order>,
                    })),
            decreases n - i,
        {
            let ghost book_pre = service.pending.orders@;
            let candle = &candles[i];
            self.time_provider.set_time(candle.time_ms);
            service.set_clock_ms(candle.time_ms);
            service.set_quote(symbol, candle.close);
            let _ = service.tick(symbol, candle);
            proof {
                let prefix = candles@.subrange(0, i as int);
                let prefix1 = candles@.subrange(0, i as int + 1);
                assert(prefix1.drop_last() =~= prefix);
                assert(prefix1.last() == candles@[i as int]);
                assert forall|oid: Seq<char>| true implies #[trigger] find_order(
                    service.pending.orders@,
                    oid,
                ) == (match find_order(old(service).pending.orders@, oid) {
                    Some(o) => if run_keeps(o, symbol@, prefix1) {
                        Some(o)
                    } else {
                        None::<Order>
                    },
                    None => None::<Order>,
                }) by {
                    match find_order(old(service).pending.orders@, oid) {
                        Some(o) => {
                            if run_keeps(o, symbol@, prefix1) {
                                assert(run_keeps(o, symbol@, prefix)) by {
                                    assert(forall|k: int|
                                        0 <= k < prefix.len() ==> prefix[k] == prefix1[k]);
                                }
                                assert(tick_keeps(o, symbol@, candles@[i as int]));
                            } else {
                                if run_keeps(o, symbol@, prefix) {
                                    assert(!tick_keeps(o, symbol@, candles@[i as int])) by {
                                        assert(forall|k: int|
                                            0 <= k < prefix.len() ==> prefix[k] == prefix1[k]);
                                        if tick_keeps(o, symbol@, candles@[i as int]) {
                                            assert(forall|k: int|
                                                0 <= k < prefix1.len() ==> tick_keeps(
                                                    o,
                                                    symbol@,
                                                    #[trigger] prefix1[k],
                                                ));
                                        }
                                    }
                                }
                            }
                        },
                        None => {},
                    }
                }
            }
            i += 1;
        }
        proof {
            if n > 0 {
                assert(candles@[n - 1] == candles@.last());
            }
            assert(candles@.subrange(0, n as int) =~= candles@);
        }
        Ok(())
    }
}

} // verus!
