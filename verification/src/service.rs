//! The trade service: the entry port through which strategies and the REST
//! surface submit, cancel and query orders. It orchestrates
//! freeze -> match -> settle for market orders, parks limit orders in the
//! pending book, and crosses them against candles on each backtest tick.

use vstd::prelude::*;
use crate::account::{AccountManager, AccountState, account_total, find_acct, manager_wf,
    opt_same_funds, pos_volume, same_funds, settle_balances, settle_positions, trade_cost,
    trade_delta, trade_gain, trade_cash_flow};
use crate::market::{Candle, candle_wf};
use crate::matcher::{LocalMatchEngine, exec_price, matcher_wf};
use crate::money::{Money, MONEY_MAX_RAW, m_bounded, m_mul, lemma_m_mul_mono_right};
use crate::orders::{AccountId, AccountSnapshot, Order, OrderDirection, OrderId, OrderStatus,
    Trade, TradeError, order_bounded, order_wf};
use crate::pending::{MemoryPendingOrderStore, book_unique, find_order};

verus! {

/// The latest known price of one symbol.
pub struct Quote {
    pub symbol: String,
    pub price: Money,
}

/// The quoted price for `sym`, if any.
pub open spec fn find_quote(qs: Seq<Quote>, sym: Seq<char>) -> Option<int>
    decreases qs.len(),
{
    if qs.len() == 0 {
        None
    } else if qs.last().symbol@ == sym {
        Some(qs.last().price@)
    } else {
        find_quote(qs.drop_last(), sym)
    }
}

pub proof fn lemma_find_quote_at(qs: Seq<Quote>, sym: Seq<char>, i: int)
    requires
        forall|p: int, q: int| 0 <= p < q < qs.len() ==> qs[p].symbol@ != qs[q].symbol@,
        0 <= i < qs.len(),
        qs[i].symbol@ == sym,
    ensures
        find_quote(qs, sym) == Some(qs[i].price@),
    decreases qs.len(),
{
    if i == qs.len() - 1 {
    } else {
        assert(qs.drop_last()[i] == qs[i]);
        lemma_find_quote_at(qs.drop_last(), sym, i);
    }
}

pub proof fn lemma_find_quote_absent(qs: Seq<Quote>, sym: Seq<char>)
    requires
        forall|i: int| 0 <= i < qs.len() ==> (#[trigger] qs[i]).symbol@ != sym,
    ensures
        find_quote(qs, sym) is None,
    decreases qs.len(),
{
    if qs.len() > 0 {
        lemma_find_quote_absent(qs.drop_last(), sym);
    }
}

proof fn lemma_find_quote_update(qs: Seq<Quote>, i: int, e: Quote, sym: Seq<char>)
    requires
        forall|p: int, q: int| 0 <= p < q < qs.len() ==> qs[p].symbol@ != qs[q].symbol@,
        0 <= i < qs.len(),
        e.symbol@ == qs[i].symbol@,
    ensures
        find_quote(qs.update(i, e), qs[i].symbol@) == Some(e.price@),
        sym != qs[i].symbol@ ==> find_quote(qs.update(i, e), sym) == find_quote(qs, sym),
    decreases qs.len(),
{
    let qs2 = qs.update(i, e);
    assert(forall|k: int| 0 <= k < qs.len() && k != i ==> qs2[k] == qs[k]);
    lemma_find_quote_at(qs2, qs[i].symbol@, i);
    if sym != qs[i].symbol@ {
        if i == qs.len() - 1 {
            assert(qs2.drop_last() =~= qs.drop_last());
        } else {
            if qs.last().symbol@ == sym {
                assert(qs2.last() == qs.last());
            } else {
                assert(qs2.drop_last() =~= qs.drop_last().update(i, e));
                lemma_find_quote_update(qs.drop_last(), i, e, sym);
            }
        }
    }
}

/// An order parked in the pending book: a well-formed limit order, still
/// `Pending`, whose full estimated funds stay representable.
pub open spec fn stored_order_wf(o: Order) -> bool {
    &&& order_wf(o)
    &&& o.status is Pending
    &&& o.price is Some
    &&& (o.price matches Some(p) ==> m_mul(p@, o.volume@) <= MONEY_MAX_RAW as int)
}

/// The paper-trading trade service.
pub struct TradeService {
    pub accounts: AccountManager,
    pub matcher: LocalMatchEngine,
    pub pending: MemoryPendingOrderStore,
    pub quotes: Vec<Quote>,
    /// The service's view of the current time, in milliseconds; fed by the
    /// real clock in live use and by the backtest driver's virtual clock.
    pub clock_ms: i64,
}

/// Service invariant: a well-formed ledger, matcher and quote table, and a
/// pending book holding only well-formed limit orders under unique ids.
pub open spec fn service_wf(s: TradeService) -> bool {
    &&& manager_wf(s.accounts)
    &&& matcher_wf(s.matcher)
    &&& book_unique(s.pending.orders@)
    &&& forall|i: int|
        0 <= i < s.pending.orders@.len() ==> stored_order_wf(#[trigger] s.pending.orders@[i])
    &&& forall|p: int, q: int|
        0 <= p < q < s.quotes@.len() ==> s.quotes@[p].symbol@ != s.quotes@[q].symbol@
    &&& forall|i: int|
        0 <= i < s.quotes@.len() ==> 0 <= (#[trigger] s.quotes@[i]).price@ <= MONEY_MAX_RAW as int
}

/// The estimated funds an order requires at reference price `cp`:
/// the estimated price (limit if set, else `cp`) times the volume.
pub open spec fn est_funds(o: Order, cp: int) -> int {
    m_mul(exec_price(o, cp), o.volume@)
}

/// The trade a market order produces when matched at price `cp` under
/// commission rate `rate` at time `now`.
pub open spec fn spec_market_trade(o: Order, cp: int, rate: int, now: i64) -> Trade {
    Trade {
        order_id: o.id,
        account_id: o.account_id,
        symbol: o.symbol,
        direction: o.direction,
        price: Money { raw: cp as i128 },
        volume: o.volume,
        commission: Money { raw: m_mul(m_mul(cp, o.volume@), rate) as i128 },
        timestamp: now,
    }
}

/// An account after freezing `amt`.
pub open spec fn after_freeze(a: AccountState, amt: int) -> AccountState {
    AccountState {
        available_balance: Money { raw: (a.available_balance@ - amt) as i128 },
        frozen_balance: Money { raw: (a.frozen_balance@ + amt) as i128 },
        ..a
    }
}

/// Successful submission: what the service guarantees when `submit_order`
/// returns the order id. A market order has been matched in full and
/// settled on the account; a limit order is parked in the book, with the
/// estimate frozen first when it buys.
pub open spec fn submit_ok(pre: TradeService, post: TradeService, o: Order) -> bool {
    &&& o.volume@ > 0
    &&& find_quote(pre.quotes@, o.symbol@) matches Some(cp)
    &&& (find_quote(pre.quotes@, o.symbol@) matches Some(cp) ==> {
        let est = est_funds(o, cp);
        &&& est <= MONEY_MAX_RAW as int
        &&& (o.price is None ==> market_ok(pre, post, o, cp, est))
        &&& (o.price is Some ==> limit_ok(pre, post, o, est))
    })
}

/// A market order's effect: the buy side freezes the estimate first, the
/// matcher fills at the quoted price, and the trade settles atomically.
pub open spec fn market_ok(pre: TradeService, post: TradeService, o: Order, cp: int, est: int) -> bool {
    let t = spec_market_trade(o, cp, pre.matcher.commission_rate@, pre.clock_ms);
    &&& forall|oid: Seq<char>|
        #[trigger] find_order(post.pending.orders@, oid) == find_order(pre.pending.orders@, oid)
    &&& find_acct(pre.accounts.accounts@, o.account_id@) matches Some(a0)
    &&& (find_acct(pre.accounts.accounts@, o.account_id@) matches Some(a0) ==> {
        let mid = if o.direction is Buy {
            after_freeze(a0, est)
        } else {
            a0
        };
        &&& find_acct(post.accounts.accounts@, o.account_id@) matches Some(a1)
        &&& (find_acct(post.accounts.accounts@, o.account_id@) matches Some(a1) ==> {
            &&& settle_balances(mid, a1, t, est)
            &&& settle_positions(a0, a1, t)
        })
        &&& (o.direction is Buy ==> a0.available_balance@ >= est && trade_cost(t)
            <= account_total(a0))
        &&& (o.direction is Sell ==> account_total(a0) + trade_gain(t) <= MONEY_MAX_RAW as int)
    })
}

/// A limit order's effect: the order is stored under its id, and a buy has
/// the estimate moved from available to frozen.
pub open spec fn limit_ok(pre: TradeService, post: TradeService, o: Order, est: int) -> bool {
    &&& find_order(post.pending.orders@, o.id@) == Some(o)
    &&& forall|oid: Seq<char>|
        oid != o.id@ ==> #[trigger] find_order(post.pending.orders@, oid) == find_order(
            pre.pending.orders@,
            oid,
        )
    &&& (o.direction is Buy ==> {
        &&& find_acct(pre.accounts.accounts@, o.account_id@) matches Some(a0)
        &&& (find_acct(pre.accounts.accounts@, o.account_id@) matches Some(a0) ==> {
            &&& a0.available_balance@ >= est
            &&& find_acct(post.accounts.accounts@, o.account_id@) matches Some(a1)
            &&& (find_acct(post.accounts.accounts@, o.account_id@) matches Some(a1) ==> {
                &&& a1.available_balance@ == a0.available_balance@ - est
                &&& a1.frozen_balance@ == a0.frozen_balance@ + est
                &&& a1.positions == a0.positions
            })
        })
    })
    &&& (o.direction is Sell ==> forall|aid: Seq<char>|
        #[trigger] find_acct(post.accounts.accounts@, aid) == find_acct(
            pre.accounts.accounts@,
            aid,
        ))
}

/// A rejected submission: the service is observationally unchanged, and
/// the error names exactly why the order was refused.
pub open spec fn submit_err(pre: TradeService, post: TradeService, o: Order, e: TradeError) -> bool {
    let cpo = find_quote(pre.quotes@, o.symbol@);
    &&& forall|oid: Seq<char>|
        #[trigger] find_order(post.pending.orders@, oid) == find_order(pre.pending.orders@, oid)
    &&& forall|aid: Seq<char>|
        #[trigger] opt_same_funds(
            find_acct(post.accounts.accounts@, aid),
            find_acct(pre.accounts.accounts@, aid),
        )
    &&& match e {
        TradeError::InvalidOrderVolume => o.volume@ <= 0,
        TradeError::InternalError(_) => o.volume@ > 0 && (cpo is None || (cpo matches Some(cp)
            ==> {
            ||| est_funds(o, cp) > MONEY_MAX_RAW as int
            ||| (o.price is None && (find_acct(pre.accounts.accounts@, o.account_id@)
                matches Some(a0) && {
                let t = spec_market_trade(o, cp, pre.matcher.commission_rate@, pre.clock_ms);
                !m_bounded(pos_volume(a0.positions@, o.symbol@) + trade_delta(t)) || (
                o.direction is Sell && account_total(a0) + trade_gain(t) > MONEY_MAX_RAW as int)
            }))
        })),
        TradeError::AccountNotFound(_) => {
            &&& o.volume@ > 0
            &&& cpo is Some
            &&& find_acct(pre.accounts.accounts@, o.account_id@) is None
            &&& (o.direction is Buy || o.price is None)
        },
        TradeError::InsufficientFunds { required, actual } => {
            &&& o.volume@ > 0
            &&& o.direction is Buy
            &&& cpo is Some
            &&& (cpo matches Some(cp) ==> (find_acct(pre.accounts.accounts@, o.account_id@)
                matches Some(a0) && {
                let est = est_funds(o, cp);
                let t = spec_market_trade(o, cp, pre.matcher.commission_rate@, pre.clock_ms);
                ||| (a0.available_balance@ < est && required@ == est && actual
                    == a0.available_balance)
                ||| (o.price is None && a0.available_balance@ >= est && trade_cost(t)
                    > account_total(a0) && required@ == trade_cost(t) && actual@ == account_total(
                    a0,
                ))
            }))
        },
        _ => false,
    }
}

impl TradeService {
    /// A service over the given ledger, matcher and pending book, with an
    /// empty quote table and the clock at zero.
    pub fn new(
        accounts: AccountManager,
        matcher: LocalMatchEngine,
        pending: MemoryPendingOrderStore,
    ) -> (r: TradeService)
        requires
            manager_wf(accounts),
            matcher_wf(matcher),
            book_unique(pending.orders@),
            forall|i: int|
                0 <= i < pending.orders@.len() ==> stored_order_wf(#[trigger] pending.orders@[i]),
        ensures
            service_wf(r),
            r.accounts == accounts,
            r.matcher == matcher,
            r.pending == pending,
            r.quotes@.len() == 0,
            r.clock_ms == 0,
    {
        TradeService { accounts, matcher, pending, quotes: Vec::new(), clock_ms: 0 }
    }

    /// Set the service's view of the current time.
    pub fn set_clock_ms(&mut self, now_ms: i64)
        requires
            service_wf(*old(self)),
        ensures
            service_wf(*final(self)),
            *final(self) == (TradeService { clock_ms: now_ms, ..*old(self) }),
    {
        self.clock_ms = now_ms;
    }

    /// Record the latest price of `symbol`.
    pub fn set_quote(&mut self, symbol: &str, price: Money)
        requires
            service_wf(*old(self)),
            0 <= price@ <= MONEY_MAX_RAW as int,
        ensures
            service_wf(*final(self)),
            final(self).accounts == old(self).accounts,
            final(self).pending == old(self).pending,
            final(self).matcher == old(self).matcher,
            final(self).clock_ms == old(self).clock_ms,
            find_quote(final(self).quotes@, symbol@) == Some(price@),
            (forall|s: Seq<char>|
                s != symbol@ ==> #[trigger] find_quote(final(self).quotes@, s) == find_quote(
                    old(self).quotes@,
                    s,
                )),
    {
        let ghost qs0 = self.quotes@;
        let n = self.quotes.len();
        let mut i: usize = 0;
        while i < n
            invariant
                n == qs0.len(),
                i <= n,
                service_wf(*self),
                *self == *old(self),
                self.quotes@ == qs0,
                0 <= price@ <= MONEY_MAX_RAW as int,
                forall|j: int| 0 <= j < i ==> (#[trigger] self.quotes@[j]).symbol@ != symbol@,
            decreases n - i,
        {
            if crate::strutil::str_eq(self.quotes[i].symbol.as_str(), symbol) {
                let updated = Quote { symbol: self.quotes[i].symbol.clone(), price };
                proof {
                    lemma_find_quote_update(qs0, i as int, updated, symbol@);
                    assert forall|s: Seq<char>| s != symbol@ implies find_quote(
                        qs0.update(i as int, updated),
                        s,
                    ) == find_quote(qs0, s) by {
                        lemma_find_quote_update(qs0, i as int, updated, s);
                    }
                }
                self.quotes.set(i, updated);
                return;
            }
            i += 1;
        }
        let fresh = Quote { symbol: symbol.to_owned(), price };
        proof {
            assert(qs0.push(fresh).last() == fresh);
            assert(qs0.push(fresh).drop_last() =~= qs0);
            assert forall|s: Seq<char>| s != symbol@ implies find_quote(qs0.push(fresh), s)
                == find_quote(qs0, s) by {
                assert(qs0.push(fresh).drop_last() =~= qs0);
            }
        }
        self.quotes.push(fresh);
    }

    /// The quoted price of `symbol`, if any.
    pub fn get_quote(&self, symbol: &str) -> (r: Option<Money>)
        requires
            service_wf(*self),
        ensures
            match r {
                Some(p) => find_quote(self.quotes@, symbol@) == Some(p@) && 0 <= p@
                    <= MONEY_MAX_RAW as int,
                None => find_quote(self.quotes@, symbol@) is None,
            },
    {
        let n = self.quotes.len();
        let mut i: usize = 0;
        while i < n
            invariant
                n == self.quotes@.len(),
                i <= n,
                service_wf(*self),
                forall|j: int| 0 <= j < i ==> (#[trigger] self.quotes@[j]).symbol@ != symbol@,
            decreases n - i,
        {
            if crate::strutil::str_eq(self.quotes[i].symbol.as_str(), symbol) {
                proof {
                    lemma_find_quote_at(self.quotes@, symbol@, i as int);
                }
                return Some(self.quotes[i].price);
            }
            i += 1;
        }
        proof {
            lemma_find_quote_absent(self.quotes@, symbol@);
        }
        None
    }

    /// Submit one order. A strictly positive volume is demanded; a missing
    /// quote is an internal error; a buy freezes the estimated funds first
    /// and propagates `InsufficientFunds`; a market order is matched at the
    /// current price and settled at once; a limit order is parked in the
    /// pending book until a tick crosses it.
    pub fn submit_order(&mut self, order: Order) -> (r: Result<OrderId, TradeError>)
        requires
            service_wf(*old(self)),
            order_bounded(order),
            order.status is Pending,
            order.filled_volume@ == 0,
        ensures
            service_wf(*final(self)),
            final(self).quotes@ == old(self).quotes@,
            final(self).matcher == old(self).matcher,
            final(self).clock_ms == old(self).clock_ms,
            (forall|aid: Seq<char>|
                aid != order.account_id@ ==> #[trigger] find_acct(
                    final(self).accounts.accounts@,
                    aid,
                ) == find_acct(old(self).accounts.accounts@, aid)),
            (forall|oid: Seq<char>|
                oid != order.id@ ==> #[trigger] find_order(final(self).pending.orders@, oid)
                    == find_order(old(self).pending.orders@, oid)),
            match r {
                Ok(oid) => oid == order.id && submit_ok(*old(self), *final(self), order),
                Err(e) => submit_err(*old(self), *final(self), order, e),
            },
    {
        let ghost pre = *self;
        let ghost o0 = order;
        if !order.volume.is_pos() {
            return Err(TradeError::InvalidOrderVolume);
        }
        let cp = match self.get_quote(order.symbol.as_str()) {
            Some(p) => p,
            None => {
                return Err(TradeError::InternalError("no quote for symbol".to_owned()));
            },
        };
        let est_price = match order.price {
            Some(p) => p,
            None => cp,
        };
        let est = est_price.mul(order.volume);
        proof {
            assert(est@ == est_funds(o0, cp@));
        }
        if est.gt(Money::from_raw(MONEY_MAX_RAW)) {
            return Err(TradeError::InternalError("estimated funds out of range".to_owned()));
        }
        let order_id = order.id.duplicate();
        let is_buy = matches!(order.direction, OrderDirection::Buy);
        let ghost a0_opt = find_acct(pre.accounts.accounts@, o0.account_id@);
        if is_buy {
            match self.accounts.freeze_funds(&order.account_id, est) {
                Ok(()) => {},
                Err(e) => {
                    return Err(e);
                },
            }
        }
        let ghost mid_mgr = self.accounts.accounts@;
        let mut order = order;
        match order.price {
            None => {
                order.status = OrderStatus::Submitted;
                match self.matcher.execute_order(&mut order, cp, self.clock_ms) {
                    Some(trade) => {
                        let ghost t_spec = spec_market_trade(
                            o0,
                            cp@,
                            pre.matcher.commission_rate@,
                            pre.clock_ms,
                        );
                        proof {
                            assert(trade.price == t_spec.price);
                            assert(trade.commission == t_spec.commission);
                            assert(trade == t_spec);
                        }
                        match self.accounts.process_trade(&order.account_id, &trade, est) {
                            Ok(()) => {
                                proof {
                                    let a0 = a0_opt.unwrap();
                                    let a_mid = find_acct(mid_mgr, o0.account_id@).unwrap();
                                    if is_buy {
                                        assert(a_mid.available_balance@ == after_freeze(
                                            a0,
                                            est@,
                                        ).available_balance@);
                                        assert(a_mid.frozen_balance@ == after_freeze(
                                            a0,
                                            est@,
                                        ).frozen_balance@);
                                        assert(a_mid.positions@ == a0.positions@);
                                    }
                                    let a1 = find_acct(
                                        self.accounts.accounts@,
                                        o0.account_id@,
                                    ).unwrap();
                                    assert(settle_balances(
                                        if o0.direction is Buy {
                                            after_freeze(a0, est@)
                                        } else {
                                            a0
                                        },
                                        a1,
                                        t_spec,
                                        est@,
                                    ));
                                    assert(settle_positions(a0, a1, t_spec));
                                    assert(market_ok(pre, *self, o0, cp@, est@));
                                }
                                Ok(order_id)
                            },
                            Err(e) => {
                                let ghost err_mgr = self.accounts.accounts@;
                                if is_buy {
                                    proof {
                                        let a0 = a0_opt.unwrap();
                                        let a_mid = find_acct(mid_mgr, o0.account_id@).unwrap();
                                        crate::account::lemma_find_acct_is_element(
                                            pre.accounts.accounts@,
                                            o0.account_id@,
                                        );
                                        assert(crate::account::account_wf(a0));
                                        assert(err_mgr == mid_mgr);
                                        assert(a_mid.available_balance@ == a0.available_balance@
                                            - est@);
                                        assert(a_mid.frozen_balance@ == a0.frozen_balance@
                                            + est@);
                                        assert(a_mid.positions == a0.positions);
                                        assert(a_mid.account_id == a0.account_id);
                                    }
                                    let _ = self.accounts.unfreeze_funds(&order.account_id, est);
                                    proof {
                                        let a0 = a0_opt.unwrap();
                                        let a_mid = find_acct(mid_mgr, o0.account_id@).unwrap();
                                        let a_fin = find_acct(
                                            self.accounts.accounts@,
                                            o0.account_id@,
                                        ).unwrap();
                                        assert(crate::account::unfreeze_clamp(
                                            est@,
                                            a_mid.frozen_balance@,
                                        ) == est@);
                                        assert(a_fin.available_balance@
                                            == a0.available_balance@);
                                        assert(a_fin.frozen_balance@ == a0.frozen_balance@);
                                        assert(a_fin.available_balance == a0.available_balance);
                                        assert(a_fin.frozen_balance == a0.frozen_balance);
                                        assert(a_fin.positions == a0.positions);
                                        assert(a_fin.account_id == a0.account_id);
                                        assert(same_funds(a_fin, a0));
                                    }
                                }
                                proof {
                                    assert(submit_err(pre, *self, o0, e));
                                }
                                Err(e)
                            },
                        }
                    },
                    None => {
                        proof {
                            assert(false);
                        }
                        Err(TradeError::InternalError(String::new()))
                    },
                }
            },
            Some(_) => {
                let ghost book0 = self.pending.orders@;
                let res = self.pending.save(order);
                proof {
                    assert(forall|i: int|
                        0 <= i < self.pending.orders@.len() ==> stored_order_wf(
                            #[trigger] self.pending.orders@[i],
                        ));
                }
                match res {
                    Ok(()) => Ok(order_id),
                    Err(e) => Err(e),
                }
            },
        }
    }

    /// Cancel a pending order. A missing id fails with `OrderNotFound` and
    /// changes nothing, so cancelling twice never refunds twice. A priced
    /// buy order releases the still-unfilled part of its frozen estimate.
    pub fn cancel_order(&mut self, order_id: OrderId) -> (r: Result<(), TradeError>)
        requires
            service_wf(*old(self)),
        ensures
            service_wf(*final(self)),
            final(self).quotes@ == old(self).quotes@,
            final(self).matcher == old(self).matcher,
            final(self).clock_ms == old(self).clock_ms,
            (forall|oid: Seq<char>|
                oid != order_id@ ==> #[trigger] find_order(final(self).pending.orders@, oid)
                    == find_order(old(self).pending.orders@, oid)),
            match find_order(old(self).pending.orders@, order_id@) {
                None => {
                    &&& r matches Err(TradeError::OrderNotFound(_))
                    &&& final(self).pending.orders@ == old(self).pending.orders@
                    &&& forall|aid: Seq<char>|
                        #[trigger] find_acct(final(self).accounts.accounts@, aid) == find_acct(
                            old(self).accounts.accounts@,
                            aid,
                        )
                },
                Some(o) => {
                    &&& find_order(final(self).pending.orders@, order_id@) is None
                    &&& (match r {
                        Ok(()) => cancel_refund_applied(*old(self), *final(self), o),
                        Err(e) => {
                            &&& e matches TradeError::AccountNotFound(_)
                            &&& o.direction is Buy
                            &&& find_acct(old(self).accounts.accounts@, o.account_id@) is None
                            &&& forall|aid: Seq<char>|
                                #[trigger] find_acct(final(self).accounts.accounts@, aid)
                                    == find_acct(old(self).accounts.accounts@, aid)
                        },
                    })
                },
            },
    {
        let prior = match self.pending.remove(&order_id) {
            Ok(p) => p,
            Err(e) => {
                return Err(e);
            },
        };
        let mut order = match prior {
            Some(o) => o,
            None => {
                return Err(TradeError::OrderNotFound("order not found or already filled".to_owned()));
            },
        };
        proof {
            crate::pending::lemma_find_order_is_element(old(self).pending.orders@, order_id@);
            assert(stored_order_wf(order));
        }
        order.status = OrderStatus::Canceled;
        let is_priced_buy = matches!(order.direction, OrderDirection::Buy) && order.price.is_some();
        if is_priced_buy {
            let price = match order.price {
                Some(p) => p,
                None => Money::zero(),
            };
            let amount = price.mul(order.volume.sub(order.filled_volume));
            proof {
                lemma_m_mul_mono_right(
                    price@,
                    order.volume@ - order.filled_volume@,
                    order.volume@,
                );
            }
            match self.accounts.unfreeze_funds(&order.account_id, amount) {
                Ok(()) => Ok(()),
                Err(e) => Err(e),
            }
        } else {
            Ok(())
        }
    }

    /// A read-only snapshot of one account.
    pub fn get_account(&self, account_id: AccountId) -> (r: Result<AccountSnapshot, TradeError>)
        requires
            service_wf(*self),
        ensures
            match r {
                Ok(s) => {
                    &&& find_acct(self.accounts.accounts@, account_id@) matches Some(a)
                        && s.account_id == a.account_id
                        && s.available_balance == a.available_balance
                        && s.frozen_balance == a.frozen_balance
                        && s.total_equity@ == account_total(a)
                },
                Err(e) => {
                    &&& e matches TradeError::AccountNotFound(_)
                    &&& find_acct(self.accounts.accounts@, account_id@) is None
                },
            },
    {
        self.accounts.snapshot(&account_id)
    }

    /// All pending orders of one account.
    pub fn get_orders(&self, account_id: &AccountId) -> (r: Result<Vec<Order>, TradeError>)
        ensures
            r matches Ok(os) && os@ == self.pending.orders@.filter(
                |o: Order| o.account_id@ == account_id@,
            ),
    {
        self.pending.get_by_account(account_id)
    }

    /// One pending order by id.
    pub fn get_order(&self, order_id: &OrderId) -> (r: Result<Option<Order>, TradeError>)
        requires
            service_wf(*self),
        ensures
            r matches Ok(found) && found == find_order(self.pending.orders@, order_id@),
    {
        self.pending.get(order_id)
    }
}

/// What a successful cancel does to the ledger: a priced buy releases
/// `price * (volume - filled_volume)` from the frozen balance (clamped, as
/// every unfreeze is); any other order leaves the ledger untouched.
pub open spec fn cancel_refund_applied(pre: TradeService, post: TradeService, o: Order) -> bool {
    if o.direction is Buy && o.price is Some {
        let refund = m_mul(o.price.unwrap()@, o.volume@ - o.filled_volume@);
        &&& find_acct(pre.accounts.accounts@, o.account_id@) matches Some(a0)
        &&& (find_acct(pre.accounts.accounts@, o.account_id@) matches Some(a0) ==> {
            &&& find_acct(post.accounts.accounts@, o.account_id@) matches Some(a1)
            &&& (find_acct(post.accounts.accounts@, o.account_id@) matches Some(a1) ==> {
                let released = crate::account::unfreeze_clamp(refund, a0.frozen_balance@);
                &&& a1.available_balance@ == a0.available_balance@ + released
                &&& a1.frozen_balance@ == a0.frozen_balance@ - released
                &&& a1.positions == a0.positions
            })
        })
        &&& forall|aid: Seq<char>|
            aid != o.account_id@ ==> #[trigger] find_acct(post.accounts.accounts@, aid)
                == find_acct(pre.accounts.accounts@, aid)
    } else {
        forall|aid: Seq<char>|
            #[trigger] find_acct(post.accounts.accounts@, aid) == find_acct(
                pre.accounts.accounts@,
                aid,
            )
    }
}

/// Whether a candle crosses a parked limit order: a buy fills when the
/// bar's low touches the limit price, a sell when the bar's high reaches
/// it.
pub open spec fn limit_hit(o: Order, c: Candle) -> bool {
    match o.price {
        Some(p) => if o.direction is Buy {
            c.low@ <= p@
        } else {
            c.high@ >= p@
        },
        None => false,
    }
}

/// Whether a tick on `sym` leaves order `o` in the book.
pub open spec fn tick_keeps(o: Order, sym: Seq<char>, c: Candle) -> bool {
    !(o.symbol@ == sym && limit_hit(o, c))
}

/// The trade a crossed limit order produces on a tick: the remaining
/// volume, filled at the limit price — no slippage in the hitter's
/// favour — at the bar's time, under commission rate `rate`.
pub open spec fn spec_tick_trade(o: Order, c: Candle, rate: int) -> Trade {
    Trade {
        order_id: o.id,
        account_id: o.account_id,
        symbol: o.symbol,
        direction: o.direction,
        price: o.price.unwrap(),
        volume: Money { raw: (o.volume@ - o.filled_volume@) as i128 },
        commission: Money {
            raw: m_mul(m_mul(o.price.unwrap()@, o.volume@ - o.filled_volume@), rate) as i128,
        },
        timestamp: c.time_ms,
    }
}

/// Whether the ledger accepts a settlement of `t` on account `a`: the
/// resulting position stays representable, a buy's full cost is covered
/// by the account's total cash, and a sell's proceeds stay in range.
/// These are exactly the conditions under which `process_trade` succeeds.
pub open spec fn can_settle(a: AccountState, t: Trade) -> bool {
    &&& m_bounded(pos_volume(a.positions@, t.symbol@) + trade_delta(t))
    &&& (t.direction is Buy ==> trade_cost(t) <= account_total(a))
    &&& (t.direction is Sell ==> account_total(a) + trade_gain(t) <= MONEY_MAX_RAW as int)
}

/// Outcome of handing trade `t` (with pre-frozen estimate `est`) to the
/// ledger: the trade's account is settled per `settle_balances` and
/// `settle_positions` when the ledger accepts it, and left exactly as it
/// stood when one of `process_trade`'s stated error conditions held;
/// every other account is untouched.
pub open spec fn settle_outcome(
    pre: Seq<AccountState>,
    post: Seq<AccountState>,
    t: Trade,
    est: int,
) -> bool {
    &&& (forall|aid: Seq<char>|
        aid != t.account_id@ ==> #[trigger] find_acct(post, aid) == find_acct(pre, aid))
    &&& match find_acct(pre, t.account_id@) {
        None => post == pre,
        Some(a0) => (find_acct(post, t.account_id@) matches Some(a1) && (if can_settle(a0, t) {
            &&& settle_balances(a0, a1, t, est)
            &&& (t.volume@ != 0 ==> settle_positions(a0, a1, t))
            &&& account_total(a1) == account_total(a0) + trade_cash_flow(t)
        } else {
            a1 == a0
        })),
    }
}

/// One order's contribution to a tick on `sym`: an order the candle does
/// not cross leaves the ledger alone; a crossed order settles the tick
/// trade at its limit price with the estimate `limit * remaining volume`.
pub open spec fn tick_step(
    pre: Seq<AccountState>,
    post: Seq<AccountState>,
    o: Order,
    sym: Seq<char>,
    c: Candle,
    rate: int,
) -> bool {
    if tick_keeps(o, sym, c) {
        post == pre
    } else {
        settle_outcome(
            pre,
            post,
            spec_tick_trade(o, c, rate),
            m_mul(o.price.unwrap()@, o.volume@ - o.filled_volume@),
        )
    }
}

/// The ledger effect of one tick: the accounts evolve by the chain of
/// `tick_step`s over the stored orders, in storage order.
pub open spec fn tick_settles(
    pre: Seq<AccountState>,
    post: Seq<AccountState>,
    os: Seq<Order>,
    sym: Seq<char>,
    c: Candle,
    rate: int,
) -> bool
    decreases os.len(),
{
    if os.len() == 0 {
        post == pre
    } else {
        exists|mid: Seq<AccountState>|
            #[trigger] tick_step(pre, mid, os.first(), sym, c, rate) && tick_settles(
                mid,
                post,
                os.drop_first(),
                sym,
                c,
                rate,
            )
    }
}

/// A settle chain extends at its back: one more order's step appends to
/// the fold.
pub proof fn lemma_tick_settles_push(
    pre: Seq<AccountState>,
    mid: Seq<AccountState>,
    post: Seq<AccountState>,
    os: Seq<Order>,
    o: Order,
    sym: Seq<char>,
    c: Candle,
    rate: int,
)
    requires
        tick_settles(pre, mid, os, sym, c, rate),
        tick_step(mid, post, o, sym, c, rate),
    ensures
        tick_settles(pre, post, os.push(o), sym, c, rate),
    decreases os.len(),
{
    if os.len() == 0 {
        assert(mid == pre);
        assert(os.push(o).first() == o);
        assert(os.push(o).drop_first() =~= Seq::<Order>::empty());
        assert(tick_step(pre, post, o, sym, c, rate));
        assert(tick_settles(post, post, os.push(o).drop_first(), sym, c, rate));
    } else {
        let m1 = choose|m1: Seq<AccountState>|
            #[trigger] tick_step(pre, m1, os.first(), sym, c, rate) && tick_settles(
                m1,
                mid,
                os.drop_first(),
                sym,
                c,
                rate,
            );
        lemma_tick_settles_push(m1, mid, post, os.drop_first(), o, sym, c, rate);
        assert(os.push(o).first() == os.first());
        assert(os.push(o).drop_first() =~= os.drop_first().push(o));
        assert(tick_step(pre, m1, os.push(o).first(), sym, c, rate));
        assert(tick_settles(m1, post, os.push(o).drop_first(), sym, c, rate));
    }
}

impl TradeService {
    /// Advance the pending book by one candle: every parked order on
    /// `symbol` whose limit price the candle crosses — boundary touches
    /// included — is filled at its limit price and settled; settlement
    /// errors are skipped without aborting the tick, exactly as the
    /// backtest port specifies. All other orders stay untouched.
    pub fn tick(&mut self, symbol: &str, candle: &Candle) -> (r: Result<(), TradeError>)
        requires
            service_wf(*old(self)),
            candle_wf(*candle),
        ensures
            r is Ok,
            service_wf(*final(self)),
            final(self).quotes@ == old(self).quotes@,
            final(self).matcher == old(self).matcher,
            final(self).clock_ms == old(self).clock_ms,
            (forall|oid: Seq<char>|
                #[trigger] find_order(final(self).pending.orders@, oid) == (match find_order(
                    old(self).pending.orders@,
                    oid,
                ) {
                    Some(o) => if tick_keeps(o, symbol@, *candle) {
                        Some(o)
                    } else {
                        None::<Order>
                    },
                    None => None::<Order>,
                })),
            (forall|aid: Seq<char>|
                (forall|k: int|
                    0 <= k < old(self).pending.orders@.len() ==> !(!tick_keeps(
                        #[trigger] old(self).pending.orders@[k],
                        symbol@,
                        *candle,
                    ) && old(self).pending.orders@[k].account_id@ == aid)) ==> #[trigger] find_acct(
                    final(self).accounts.accounts@,
                    aid,
                ) == find_acct(old(self).accounts.accounts@, aid)),
            tick_settles(
                old(self).accounts.accounts@,
                final(self).accounts.accounts@,
                old(self).pending.orders@,
                symbol@,
                *candle,
                old(self).matcher.commission_rate@,
            ),
    {
        let ghost book0 = self.pending.orders@;
        let ghost keeps = |o: Order| tick_keeps(o, symbol@, *candle);
        let n = self.pending.orders.len();
        let mut kept: Vec<Order> = Vec::new();
        let mut i: usize = 0;
        proof {
            assert(book0.subrange(0, 0).filter(keeps) =~= Seq::<Order>::empty());
            assert(book0.subrange(0, 0).len() == 0);
        }
        while i < n
            invariant
                service_wf(*old(self)),
                candle_wf(*candle),
                n == book0.len(),
                i <= n,
                book0 == old(self).pending.orders@,
                self.pending.orders@ == book0,
                self.quotes@ == old(self).quotes@,
                self.matcher == old(self).matcher,
                self.clock_ms == old(self).clock_ms,
                manager_wf(self.accounts),
                keeps == (|o: Order| tick_keeps(o, symbol@, *candle)),
                kept@ == book0.subrange(0, i as int).filter(keeps),
                (forall|aid: Seq<char>|
                    (forall|k: int|
                        0 <= k < i ==> !(!tick_keeps(#[trigger] book0[k], symbol@, *candle)
                            && book0[k].account_id@ == aid)) ==> #[trigger] find_acct(
                        self.accounts.accounts@,
                        aid,
                    ) == find_acct(old(self).accounts.accounts@, aid)),
                tick_settles(
                    old(self).accounts.accounts@,
                    self.accounts.accounts@,
                    book0.subrange(0, i as int),
                    symbol@,
                    *candle,
                    self.matcher.commission_rate@,
                ),
            decreases n - i,
        {
            let ghost pre_slice = book0.subrange(0, i as int);
            let ghost mgr_pre = self.accounts.accounts@;
            let is_hit = match self.pending.orders[i].price {
                Some(p) => {
                    match self.pending.orders[i].direction {
                        OrderDirection::Buy => candle.low.le(p),
                        OrderDirection::Sell => candle.high.ge(p),
                    }
                },
                None => false,
            };
            let on_symbol = crate::strutil::str_eq(
                self.pending.orders[i].symbol.as_str(),
                symbol,
            );
            if on_symbol && is_hit {
                let mut filled = self.pending.orders[i].duplicate();
                let limit_price = match filled.price {
                    Some(p) => p,
                    None => Money::zero(),
                };
                proof {
                    assert(stored_order_wf(book0[i as int]));
                    lemma_m_mul_mono_right(
                        limit_price@,
                        filled.volume@ - filled.filled_volume@,
                        filled.volume@,
                    );
                }
                match self.matcher.execute_order(&mut filled, limit_price, candle.time_ms) {
                    Some(trade) => {
                        let ghost t_spec = spec_tick_trade(
                            book0[i as int],
                            *candle,
                            self.matcher.commission_rate@,
                        );
                        proof {
                            assert(trade.price == t_spec.price);
                            assert(trade.volume == t_spec.volume);
                            assert(trade.commission == t_spec.commission);
                            assert(trade == t_spec);
                        }
                        let est_req = limit_price.mul(trade.volume);
                        let res = self.accounts.process_trade(
                            &filled.account_id,
                            &trade,
                            est_req,
                        );
                        proof {
                            assert(est_req@ == m_mul(
                                book0[i as int].price.unwrap()@,
                                book0[i as int].volume@ - book0[i as int].filled_volume@,
                            ));
                            match res {
                                Ok(()) => {
                                    assert(settle_outcome(
                                        mgr_pre,
                                        self.accounts.accounts@,
                                        t_spec,
                                        est_req@,
                                    ));
                                },
                                Err(e) => {
                                    assert(self.accounts.accounts@ =~= mgr_pre);
                                    assert(settle_outcome(
                                        mgr_pre,
                                        self.accounts.accounts@,
                                        t_spec,
                                        est_req@,
                                    ));
                                },
                            }
                            assert(tick_step(
                                mgr_pre,
                                self.accounts.accounts@,
                                book0[i as int],
                                symbol@,
                                *candle,
                                self.matcher.commission_rate@,
                            ));
                        }
                    },
                    None => {
                        proof {
                            assert(false);
                        }
                    },
                }
            } else {
                kept.push(self.pending.orders[i].duplicate());
                proof {
                    assert(tick_keeps(book0[i as int], symbol@, *candle));
                    assert(tick_step(
                        mgr_pre,
                        self.accounts.accounts@,
                        book0[i as int],
                        symbol@,
                        *candle,
                        self.matcher.commission_rate@,
                    ));
                }
            }
            proof {
                let cur = book0.subrange(0, i as int + 1);
                assert(cur.drop_last() =~= pre_slice);
                assert(cur.last() == book0[i as int]);
                reveal_with_fuel(Seq::filter, 2);
                assert forall|aid: Seq<char>|
                    (forall|k: int|
                        0 <= k < i + 1 ==> !(!tick_keeps(#[trigger] book0[k], symbol@, *candle)
                            && book0[k].account_id@ == aid)) implies #[trigger] find_acct(
                    self.accounts.accounts@,
                    aid,
                ) == find_acct(old(self).accounts.accounts@, aid) by {
                    assert(!(!tick_keeps(book0[i as int], symbol@, *candle)
                        && book0[i as int].account_id@ == aid));
                    assert(find_acct(self.accounts.accounts@, aid) == find_acct(mgr_pre, aid));
                }
                lemma_tick_settles_push(
                    old(self).accounts.accounts@,
                    mgr_pre,
                    self.accounts.accounts@,
                    pre_slice,
                    book0[i as int],
                    symbol@,
                    *candle,
                    self.matcher.commission_rate@,
                );
                assert(book0.subrange(0, i as int + 1) =~= pre_slice.push(book0[i as int]));
            }
            i += 1;
        }
        proof {
            assert(book0.subrange(0, n as int) =~= book0);
        }
        self.pending.orders = kept;
        proof {
            assert forall|oid: Seq<char>| true implies #[trigger] find_order(
                self.pending.orders@,
                oid,
            ) == (match find_order(book0, oid) {
                Some(o) => if tick_keeps(o, symbol@, *candle) {
                    Some(o)
                } else {
                    None::<Order>
                },
                None => None::<Order>,
            }) by {
                crate::pending::lemma_find_order_filter(book0, keeps, oid);
            }
            crate::pending::lemma_find_order_filter(book0, keeps, symbol@);
            assert forall|k: int| 0 <= k < self.pending.orders@.len() implies stored_order_wf(
                #[trigger] self.pending.orders@[k],
            ) by {
                let j = choose|j: int| 0 <= j < book0.len() && book0[j] == self.pending.orders@[k];
                assert(stored_order_wf(book0[j]));
            }
        }
        Ok(())
    }
}

} // verus!
