//! The matcher: a pure function from an order and a reference price to an
//! optional trade. Orders in `Pending` or `Submitted` state are filled in
//! full at the limit price if one is set, else at the reference price, with
//! a commission proportional to the transaction value.

use vstd::prelude::*;
use crate::money::{Money, MONEY_MAX_RAW, MONEY_SCALE, m_mul};
use crate::orders::{Order, OrderStatus, Trade, order_bounded, order_wf, trade_bounded};

verus! {

/// Price at which `o` executes against reference price `reference`:
/// the limit price when one is set, else the reference price.
pub open spec fn exec_price(o: Order, reference: int) -> int {
    match o.price {
        Some(p) => p@,
        None => reference,
    }
}

/// Whether the matcher fills an order at all: only orders still awaiting
/// execution are touched.
pub open spec fn matchable(o: Order) -> bool {
    o.status is Pending || o.status is Submitted
}

/// The in-memory matching engine for paper trading and backtests, with a
/// commission rate fixed at construction.
pub struct LocalMatchEngine {
    pub commission_rate: Money,
}

/// The commission rate is a fraction: non-negative and at most one.
pub open spec fn matcher_wf(m: LocalMatchEngine) -> bool {
    0 <= m.commission_rate@ <= MONEY_SCALE as int
}

impl LocalMatchEngine {
    /// A matching engine charging `commission_rate` (a fixed-point
    /// fraction, at most one) on each side of a fill.
    pub fn new(commission_rate: Money) -> (r: LocalMatchEngine)
        requires
            0 <= commission_rate@ <= MONEY_SCALE as int,
        ensures
            r.commission_rate == commission_rate,
            matcher_wf(r),
    {
        LocalMatchEngine { commission_rate }
    }

    /// Fill the remaining volume of `order` in one trade at the execution
    /// price. An order that is not `Pending` or `Submitted` is left
    /// untouched and yields no trade.
    pub fn execute_order(&self, order: &mut Order, current_market_price: Money, now_ms: i64) -> (r:
        Option<Trade>)
        requires
            matcher_wf(*self),
            order_bounded(*old(order)),
            old(order).filled_volume@ <= old(order).volume@,
            0 <= current_market_price@ <= MONEY_MAX_RAW as int,
            m_mul(
                exec_price(*old(order), current_market_price@),
                old(order).volume@ - old(order).filled_volume@,
            ) <= MONEY_MAX_RAW as int,
        ensures
            match r {
                Some(t) => {
                    &&& matchable(*old(order))
                    &&& t.order_id == old(order).id
                    &&& t.account_id == old(order).account_id
                    &&& t.symbol == old(order).symbol
                    &&& t.direction == old(order).direction
                    &&& t.price@ == exec_price(*old(order), current_market_price@)
                    &&& t.volume@ == old(order).volume@ - old(order).filled_volume@
                    &&& t.commission@ == m_mul(m_mul(t.price@, t.volume@), self.commission_rate@)
                    &&& t.commission@ <= m_mul(t.price@, t.volume@)
                    &&& t.timestamp == now_ms
                    &&& trade_bounded(t)
                    &&& final(order).filled_volume@ == old(order).volume@
                    &&& final(order).status is Filled
                    &&& final(order).id == old(order).id
                    &&& final(order).account_id == old(order).account_id
                    &&& final(order).symbol == old(order).symbol
                    &&& final(order).direction == old(order).direction
                    &&& final(order).price == old(order).price
                    &&& final(order).volume == old(order).volume
                    &&& final(order).created_at == old(order).created_at
                    &&& 0 < old(order).volume@ ==> order_wf(*final(order))
                },
                None => {
                    &&& !matchable(*old(order))
                    &&& *final(order) == *old(order)
                },
            },
    {
        match order.status {
            OrderStatus::Pending => {},
            OrderStatus::Submitted => {},
            _ => {
                return None;
            },
        }
        let price = match order.price {
            Some(p) => p,
            None => current_market_price,
        };
        let executed_volume = order.volume.sub(order.filled_volume);
        let transaction_val = price.mul(executed_volume);
        let commission = transaction_val.mul_fraction(self.commission_rate);
        order.filled_volume = order.volume;
        order.status = OrderStatus::Filled;
        Some(
            Trade {
                order_id: order.id.duplicate(),
                account_id: order.account_id.duplicate(),
                symbol: order.symbol.clone(),
                direction: order.direction,
                price,
                volume: executed_volume,
                commission,
                timestamp: now_ms,
            },
        )
    }
}

} // verus!
