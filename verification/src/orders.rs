//! Trading entities: identifiers, orders, trades, positions and account
//! snapshots, together with their well-formedness conditions.

use vstd::prelude::*;
use crate::money::{Money, MONEY_MAX_RAW, m_bounded};

verus! {

/// Identifier of a logical account.
#[derive(Clone, Debug, PartialEq, Eq, Hash)]
pub struct AccountId(pub String);

impl View for AccountId {
    type V = Seq<char>;

    open spec fn view(&self) -> Seq<char> {
        self.0@
    }
}

impl AccountId {
    /// Whether two account identifiers name the same account.
    pub fn same(&self, o: &AccountId) -> (r: bool)
        ensures
            r == (self@ == o@),
    {
        self.0 == o.0
    }

    pub fn duplicate(&self) -> (r: AccountId)
        ensures
            r == *self,
    {
        AccountId(self.0.clone())
    }
}

/// Identifier of an order.
#[derive(Clone, Debug, PartialEq, Eq, Hash)]
pub struct OrderId(pub String);

impl View for OrderId {
    type V = Seq<char>;

    open spec fn view(&self) -> Seq<char> {
        self.0@
    }
}

impl OrderId {
    /// Whether two order identifiers name the same order.
    pub fn same(&self, o: &OrderId) -> (r: bool)
        ensures
            r == (self@ == o@),
    {
        self.0 == o.0
    }

    pub fn duplicate(&self) -> (r: OrderId)
        ensures
            r == *self,
    {
        OrderId(self.0.clone())
    }
}

/// Side of an order.
#[derive(Clone, Copy, Debug, PartialEq, Eq, Structural)]
pub enum OrderDirection {
    Buy,
    Sell,
}

/// Lifecycle state of an order.
#[derive(Clone, Copy, Debug, PartialEq, Eq, Structural)]
pub enum OrderStatus {
    Pending,
    Submitted,
    PartialFilled,
    Filled,
    Canceled,
    Rejected,
}

/// A logical order: the standard trading intent produced by a strategy
/// or by the REST surface.
#[derive(Clone, Debug)]
pub struct Order {
    pub id: OrderId,
    pub account_id: AccountId,
    pub symbol: String,
    pub direction: OrderDirection,
    /// Limit price; absent for a market order.
    pub price: Option<Money>,
    pub volume: Money,
    pub filled_volume: Money,
    pub status: OrderStatus,
    /// Creation time, in milliseconds since the epoch.
    pub created_at: i64,
}

/// All monetary fields of the order lie within the representable range.
pub open spec fn order_bounded(o: Order) -> bool {
    &&& 0 <= o.volume@ <= MONEY_MAX_RAW as int
    &&& 0 <= o.filled_volume@ <= MONEY_MAX_RAW as int
    &&& match o.price {
        Some(p) => 0 < p@ <= MONEY_MAX_RAW as int,
        None => true,
    }
}

/// Well-formedness of an order: bounded fields, a strictly positive volume,
/// a fill that never exceeds the volume, and a status of `Filled` exactly
/// when the order is fully filled.
pub open spec fn order_wf(o: Order) -> bool {
    &&& order_bounded(o)
    &&& 0 < o.volume@
    &&& o.filled_volume@ <= o.volume@
    &&& (o.status is Filled <==> o.filled_volume@ == o.volume@)
}

impl Order {
    /// A fresh order in `Pending` state with nothing filled yet.
    pub fn new(
        id: OrderId,
        account_id: AccountId,
        symbol: String,
        direction: OrderDirection,
        price: Option<Money>,
        volume: Money,
        now_ms: i64,
    ) -> (r: Order)
        ensures
            r.id == id,
            r.account_id == account_id,
            r.symbol == symbol,
            r.direction == direction,
            r.price == price,
            r.volume == volume,
            r.filled_volume@ == 0,
            r.status is Pending,
            r.created_at == now_ms,
    {
        Order {
            id,
            account_id,
            symbol,
            direction,
            price,
            volume,
            filled_volume: Money::zero(),
            status: OrderStatus::Pending,
            created_at: now_ms,
        }
    }

    /// An exact copy of the order.
    pub fn duplicate(&self) -> (r: Order)
        ensures
            r == *self,
    {
        Order {
            id: self.id.duplicate(),
            account_id: self.account_id.duplicate(),
            symbol: self.symbol.clone(),
            direction: self.direction,
            price: self.price,
            volume: self.volume,
            filled_volume: self.filled_volume,
            status: self.status,
            created_at: self.created_at,
        }
    }
}

/// An immutable fill record produced by the matcher.
#[derive(Clone, Debug)]
pub struct Trade {
    pub order_id: OrderId,
    pub account_id: AccountId,
    pub symbol: String,
    pub direction: OrderDirection,
    pub price: Money,
    pub volume: Money,
    pub commission: Money,
    /// Execution time, in milliseconds since the epoch.
    pub timestamp: i64,
}

/// Bounds on the monetary fields of a trade.
pub open spec fn trade_bounded(t: Trade) -> bool {
    &&& 0 <= t.price@ <= MONEY_MAX_RAW as int
    &&& 0 <= t.volume@ <= MONEY_MAX_RAW as int
    &&& 0 <= t.commission@ <= MONEY_MAX_RAW as int
}

impl Trade {
    /// An exact copy of the trade.
    pub fn duplicate(&self) -> (r: Trade)
        ensures
            r == *self,
    {
        Trade {
            order_id: self.order_id.duplicate(),
            account_id: self.account_id.duplicate(),
            symbol: self.symbol.clone(),
            direction: self.direction,
            price: self.price,
            volume: self.volume,
            commission: self.commission,
            timestamp: self.timestamp,
        }
    }
}

/// Holding of one symbol in one account; the volume is signed
/// (positive long, negative short).
#[derive(Clone, Debug)]
pub struct Position {
    pub account_id: AccountId,
    pub symbol: String,
    pub volume: Money,
    pub average_price: Money,
}

/// Well-formedness of a position: bounded fields, a non-negative average
/// price, and a zero average price whenever the position is flat.
pub open spec fn position_wf(p: Position) -> bool {
    &&& m_bounded(p.volume@)
    &&& 0 <= p.average_price@ <= MONEY_MAX_RAW as int
    &&& p.volume@ == 0 ==> p.average_price@ == 0
}

impl Position {
    /// A flat position for the given account and symbol.
    pub fn empty(account_id: AccountId, symbol: String) -> (r: Position)
        ensures
            r.account_id == account_id,
            r.symbol == symbol,
            r.volume@ == 0,
            r.average_price@ == 0,
            position_wf(r),
    {
        Position {
            account_id,
            symbol,
            volume: Money::zero(),
            average_price: Money::zero(),
        }
    }

    /// An exact copy of the position.
    pub fn duplicate(&self) -> (r: Position)
        ensures
            r == *self,
    {
        Position {
            account_id: self.account_id.duplicate(),
            symbol: self.symbol.clone(),
            volume: self.volume,
            average_price: self.average_price,
        }
    }
}

/// A read-only snapshot of one account: balances, total equity and the
/// non-flat positions.
#[derive(Clone, Debug)]
pub struct AccountSnapshot {
    pub account_id: AccountId,
    pub available_balance: Money,
    pub frozen_balance: Money,
    pub total_equity: Money,
    pub positions: Vec<Position>,
}

/// Errors of the trading core.
#[derive(Clone, Debug, PartialEq)]
pub enum TradeError {
    AccountNotFound(String),
    InsufficientFunds { required: Money, actual: Money },
    OrderNotFound(String),
    InvalidOrderStatus,
    /// The order's volume is not strictly positive; the REST surface
    /// reports this as a bad request.
    InvalidOrderVolume,
    BrokerIntegrationError(String),
    InternalError(String),
}

} // verus!
