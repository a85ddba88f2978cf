//! The account ledger: per-account funds (available and frozen), positions,
//! and the atomic freeze / unfreeze / settle operations.
//!
//! Every operation preserves the ledger invariant `account_wf`: the available
//! and the frozen balance are never negative, and every position is
//! well formed. Each operation also changes `available + frozen` by exactly
//! the cash flow of the operation, which yields the conservation law proved
//! by [`lemma_trade_conservation`].

use vstd::prelude::*;
use crate::money::{Money, MONEY_MAX_RAW, MONEY_SCALE, COST_MAX_RAW, m_bounded, m_mul, m_div};
use crate::orders::{AccountId, AccountSnapshot, OrderDirection, Position, Trade, TradeError,
    position_wf, trade_bounded};

verus! {

/// The position for `sym` among `ps`, if any; scanned from the back, which
/// is equivalent to any other order under `positions_unique`.
pub open spec fn find_pos(ps: Seq<Position>, sym: Seq<char>) -> Option<Position>
    decreases ps.len(),
{
    if ps.len() == 0 {
        None
    } else if ps.last().symbol@ == sym {
        Some(ps.last())
    } else {
        find_pos(ps.drop_last(), sym)
    }
}

/// Signed volume held for `sym`; zero when no position is recorded.
pub open spec fn pos_volume(ps: Seq<Position>, sym: Seq<char>) -> int {
    match find_pos(ps, sym) {
        Some(p) => p.volume@,
        None => 0,
    }
}

/// Average price recorded for `sym`; zero when no position is recorded.
pub open spec fn pos_avg(ps: Seq<Position>, sym: Seq<char>) -> int {
    match find_pos(ps, sym) {
        Some(p) => p.average_price@,
        None => 0,
    }
}

/// No two positions share a symbol.
pub open spec fn positions_unique(ps: Seq<Position>) -> bool {
    forall|i: int, j: int|
        0 <= i < j < ps.len() ==> ps[i].symbol@ != ps[j].symbol@
}

/// Every position is well formed and symbols are unique.
pub open spec fn positions_wf(ps: Seq<Position>) -> bool {
    &&& positions_unique(ps)
    &&& forall|i: int| 0 <= i < ps.len() ==> position_wf(#[trigger] ps[i])
}

pub proof fn lemma_find_pos_at(ps: Seq<Position>, sym: Seq<char>, i: int)
    requires
        positions_unique(ps),
        0 <= i < ps.len(),
        ps[i].symbol@ == sym,
    ensures
        find_pos(ps, sym) == Some(ps[i]),
    decreases ps.len(),
{
    if i == ps.len() - 1 {
    } else {
        assert(ps.last().symbol@ != sym);
        assert(ps.drop_last()[i] == ps[i]);
        lemma_find_pos_at(ps.drop_last(), sym, i);
    }
}

pub proof fn lemma_find_pos_absent(ps: Seq<Position>, sym: Seq<char>)
    requires
        forall|i: int| 0 <= i < ps.len() ==> (#[trigger] ps[i]).symbol@ != sym,
    ensures
        find_pos(ps, sym) is None,
    decreases ps.len(),
{
    if ps.len() > 0 {
        lemma_find_pos_absent(ps.drop_last(), sym);
    }
}

/// Replacing the entry at `i` (same symbol) only affects that symbol.
pub proof fn lemma_find_pos_update(ps: Seq<Position>, i: int, p: Position, sym: Seq<char>)
    requires
        positions_unique(ps),
        0 <= i < ps.len(),
        p.symbol@ == ps[i].symbol@,
    ensures
        find_pos(ps.update(i, p), ps[i].symbol@) == Some(p),
        sym != ps[i].symbol@ ==> find_pos(ps.update(i, p), sym) == find_pos(ps, sym),
        positions_unique(ps.update(i, p)),
    decreases ps.len(),
{
    let ps2 = ps.update(i, p);
    assert(forall|k: int| 0 <= k < ps.len() && k != i ==> ps2[k] == ps[k]);
    assert(positions_unique(ps2));
    lemma_find_pos_at(ps2, ps[i].symbol@, i);
    if sym != ps[i].symbol@ {
        if i == ps.len() - 1 {
            assert(ps2.drop_last() =~= ps.drop_last());
        } else {
            if ps.last().symbol@ == sym {
                assert(ps2.last() == ps.last());
            } else {
                assert(ps2.drop_last() =~= ps.drop_last().update(i, p));
                lemma_find_pos_update(ps.drop_last(), i, p, sym);
            }
        }
    }
}

/// Appending a position for a fresh symbol only affects that symbol.
pub proof fn lemma_find_pos_push(ps: Seq<Position>, p: Position, sym: Seq<char>)
    ensures
        find_pos(ps.push(p), p.symbol@) == Some(p),
        sym != p.symbol@ ==> find_pos(ps.push(p), sym) == find_pos(ps, sym),
{
    assert(ps.push(p).last() == p);
    assert(ps.push(p).drop_last() =~= ps);
}

/// Cash-flow effect of one settled trade on `available + frozen`:
/// a buy consumes `price * volume + commission`, a sell yields
/// `price * volume - commission`.
pub open spec fn trade_cash_flow(t: Trade) -> int {
    if t.direction is Buy {
        -(m_mul(t.price@, t.volume@) + t.commission@)
    } else {
        m_mul(t.price@, t.volume@) - t.commission@
    }
}

/// Kind of one audit row.
#[derive(Clone, Copy, Debug, PartialEq, Eq, Structural)]
pub enum AuditAction {
    Deposit,
    FreezeFunds,
    UnfreezeFunds,
    TradeFilled,
}

/// One row of the account's audit log: which operation ran and exactly
/// how it moved the available and the frozen balance.
#[derive(Clone, Copy, Debug, PartialEq, Eq, Structural)]
pub struct AuditEntry {
    pub action: AuditAction,
    pub asset_change: Money,
    pub frozen_change: Money,
}

/// The audit row an operation appends: its action and its exact balance
/// deltas.
pub open spec fn audit_entry(action: AuditAction, asset_change: int, frozen_change: int) -> AuditEntry {
    AuditEntry {
        action,
        asset_change: Money { raw: asset_change as i128 },
        frozen_change: Money { raw: frozen_change as i128 },
    }
}

/// Concurrency-safe wrapper state for one core account.
pub struct AccountState {
    pub account_id: AccountId,
    pub available_balance: Money,
    pub frozen_balance: Money,
    pub positions: Vec<Position>,
    /// Append-only audit log: one row per deposit, freeze, unfreeze and
    /// settled trade.
    pub audit: Vec<AuditEntry>,
}

/// Two account states agree on everything a balance sheet shows — the
/// identifier, both balances and the positions; the audit log may
/// differ (a rolled-back submission still leaves its freeze and release
/// on record).
pub open spec fn same_funds(a: AccountState, b: AccountState) -> bool {
    &&& a.account_id == b.account_id
    &&& a.available_balance == b.available_balance
    &&& a.frozen_balance == b.frozen_balance
    &&& a.positions == b.positions
}

/// `same_funds`, lifted to lookup results: both absent, or both present
/// with the same balance sheet.
pub open spec fn opt_same_funds(a: Option<AccountState>, b: Option<AccountState>) -> bool {
    match (a, b) {
        (Some(x), Some(y)) => same_funds(x, y),
        (None, None) => true,
        _ => false,
    }
}

/// The ledger invariant of one account: both balances are non-negative,
/// their sum stays representable, and the positions are well formed.
pub open spec fn account_wf(a: AccountState) -> bool {
    &&& 0 <= a.available_balance@
    &&& 0 <= a.frozen_balance@
    &&& a.available_balance@ + a.frozen_balance@ <= MONEY_MAX_RAW as int
    &&& positions_wf(a.positions@)
}

/// Total cash of the account: available plus frozen.
pub open spec fn account_total(a: AccountState) -> int {
    a.available_balance@ + a.frozen_balance@
}

/// The average price after adding `delta` at `price` to a position of
/// `vol` at `avg`: cost-weighted when the direction agrees (or the position
/// was flat), kept on a plain reduction, reset to the trade price on a sign
/// flip, and zero when the position closes.
pub open spec fn updated_avg(vol: int, avg: int, delta: int, price: int) -> int {
    if delta == 0 {
        avg
    } else if vol == 0 || (vol > 0 && delta > 0) || (vol < 0 && delta < 0) {
        m_div(m_mul(iabs(vol), avg) + m_mul(iabs(delta), price), iabs(vol + delta))
    } else if vol + delta == 0 {
        0
    } else if (vol + delta > 0) == (delta > 0) {
        price
    } else {
        avg
    }
}

pub open spec fn iabs(x: int) -> int {
    if x >= 0 {
        x
    } else {
        -x
    }
}

/// A cost-weighted average of two prices never exceeds a common bound of
/// the prices.
proof fn lemma_weighted_avg_bounded(va: int, avg: int, vd: int, price: int, m: int)
    requires
        0 <= va <= m,
        0 <= vd <= m,
        0 < va + vd,
        0 <= avg <= m,
        0 <= price <= m,
        0 < m <= MONEY_MAX_RAW as int,
    ensures
        0 <= m_div(m_mul(va, avg) + m_mul(vd, price), va + vd) <= m,
{
    let s = MONEY_SCALE as int;
    let oc = m_mul(va, avg);
    let ac = m_mul(vd, price);
    vstd::arithmetic::mul::lemma_mul_nonnegative(va, avg);
    vstd::arithmetic::mul::lemma_mul_nonnegative(vd, price);
    vstd::arithmetic::div_mod::lemma_div_pos_is_pos(va * avg, s);
    vstd::arithmetic::div_mod::lemma_div_pos_is_pos(vd * price, s);
    vstd::arithmetic::div_mod::lemma_fundamental_div_mod(va * avg, s);
    vstd::arithmetic::div_mod::lemma_mod_division_less_than_divisor(va * avg, s);
    assert(oc * s <= va * avg) by {
        assert(va * avg == s * oc + (va * avg) % s);
        vstd::arithmetic::mul::lemma_mul_is_commutative(s, oc);
    }
    vstd::arithmetic::div_mod::lemma_fundamental_div_mod(vd * price, s);
    vstd::arithmetic::div_mod::lemma_mod_division_less_than_divisor(vd * price, s);
    assert(ac * s <= vd * price) by {
        assert(vd * price == s * ac + (vd * price) % s);
        vstd::arithmetic::mul::lemma_mul_is_commutative(s, ac);
    }
    assert((oc + ac) * s == oc * s + ac * s) by {
        vstd::arithmetic::mul::lemma_mul_is_distributive_add_other_way(s, oc, ac);
    }
    vstd::arithmetic::mul::lemma_mul_inequality(avg, m, va);
    vstd::arithmetic::mul::lemma_mul_inequality(price, m, vd);
    assert(va * avg == avg * va) by {
        vstd::arithmetic::mul::lemma_mul_is_commutative(va, avg);
    }
    assert(vd * price == price * vd) by {
        vstd::arithmetic::mul::lemma_mul_is_commutative(vd, price);
    }
    assert(m * va + m * vd == (va + vd) * m) by {
        vstd::arithmetic::mul::lemma_mul_is_distributive_add(m, va, vd);
        vstd::arithmetic::mul::lemma_mul_is_commutative(m, va + vd);
    }
    assert((oc + ac) * s <= (va + vd) * m);
    vstd::arithmetic::div_mod::lemma_multiply_divide_le((oc + ac) * s, va + vd, m);
    vstd::arithmetic::mul::lemma_mul_nonnegative(oc + ac, s);
    vstd::arithmetic::div_mod::lemma_div_pos_is_pos((oc + ac) * s, va + vd);
}

impl AccountState {
    /// A fresh account holding `initial_balance` available and nothing
    /// frozen.
    pub fn new(account_id: AccountId, initial_balance: Money) -> (r: AccountState)
        requires
            0 <= initial_balance@ <= MONEY_MAX_RAW as int,
        ensures
            r.account_id == account_id,
            r.available_balance == initial_balance,
            r.frozen_balance@ == 0,
            r.positions@.len() == 0,
            r.audit@.len() == 0,
            account_wf(r),
    {
        AccountState {
            account_id,
            available_balance: initial_balance,
            frozen_balance: Money::zero(),
            positions: Vec::new(),
            audit: Vec::new(),
        }
    }

    /// Freeze `amount` for an order about to be placed. Fails with
    /// `InsufficientFunds` when the available balance is too small, and
    /// leaves the account unchanged in that case.
    pub fn freeze_funds(&mut self, amount: Money) -> (r: Result<(), TradeError>)
        requires
            account_wf(*old(self)),
            0 <= amount@ <= MONEY_MAX_RAW as int,
        ensures
            account_wf(*final(self)),
            final(self).account_id == old(self).account_id,
            final(self).positions == old(self).positions,
            account_total(*final(self)) == account_total(*old(self)),
            match r {
                Ok(()) => {
                    &&& old(self).available_balance@ >= amount@
                    &&& final(self).available_balance@ == old(self).available_balance@ - amount@
                    &&& final(self).frozen_balance@ == old(self).frozen_balance@ + amount@
                    &&& final(self).audit@ == old(self).audit@.push(
                        audit_entry(AuditAction::FreezeFunds, -amount@, amount@),
                    )
                },
                Err(e) => {
                    &&& old(self).available_balance@ < amount@
                    &&& e == (TradeError::InsufficientFunds {
                        required: amount,
                        actual: old(self).available_balance,
                    })
                    &&& *final(self) == *old(self)
                },
            },
    {
        if self.available_balance.lt(amount) {
            return Err(TradeError::InsufficientFunds {
                required: amount,
                actual: self.available_balance,
            });
        }
        self.available_balance = self.available_balance.sub(amount);
        self.frozen_balance = self.frozen_balance.add(amount);
        self.audit.push(
            AuditEntry {
                action: AuditAction::FreezeFunds,
                asset_change: amount.neg(),
                frozen_change: amount,
            },
        );
        Ok(())
    }

    /// Release frozen funds back to the available balance, clamped to what
    /// is actually frozen.
    pub fn unfreeze_funds(&mut self, amount: Money)
        requires
            account_wf(*old(self)),
            0 <= amount@ <= MONEY_MAX_RAW as int,
        ensures
            account_wf(*final(self)),
            final(self).account_id == old(self).account_id,
            final(self).positions == old(self).positions,
            account_total(*final(self)) == account_total(*old(self)),
            final(self).frozen_balance@ == old(self).frozen_balance@ - unfreeze_clamp(
                amount@,
                old(self).frozen_balance@,
            ),
            final(self).available_balance@ == old(self).available_balance@ + unfreeze_clamp(
                amount@,
                old(self).frozen_balance@,
            ),
            final(self).audit@ == old(self).audit@.push(
                audit_entry(
                    AuditAction::UnfreezeFunds,
                    unfreeze_clamp(amount@, old(self).frozen_balance@),
                    -unfreeze_clamp(amount@, old(self).frozen_balance@),
                ),
            ),
    {
        let actual = if amount.gt(self.frozen_balance) {
            self.frozen_balance
        } else {
            amount
        };
        self.frozen_balance = self.frozen_balance.sub(actual);
        self.available_balance = self.available_balance.add(actual);
        self.audit.push(
            AuditEntry {
                action: AuditAction::UnfreezeFunds,
                asset_change: actual,
                frozen_change: actual.neg(),
            },
        );
    }

    /// Credit `amount` to the available balance (a deposit or a dividend).
    pub fn add_funds(&mut self, amount: Money)
        requires
            account_wf(*old(self)),
            0 <= amount@,
            account_total(*old(self)) + amount@ <= MONEY_MAX_RAW as int,
        ensures
            account_wf(*final(self)),
            final(self).account_id == old(self).account_id,
            final(self).positions == old(self).positions,
            final(self).frozen_balance == old(self).frozen_balance,
            final(self).available_balance@ == old(self).available_balance@ + amount@,
            account_total(*final(self)) == account_total(*old(self)) + amount@,
            final(self).audit == old(self).audit,
    {
        self.available_balance = self.available_balance.add(amount);
    }

    /// Take `target_amount` out of the account on a settled buy: the frozen
    /// balance is consumed first, and any excess spills into the available
    /// balance.
    pub fn deduct_funds(&mut self, target_amount: Money)
        requires
            account_wf(*old(self)),
            0 <= target_amount@ <= account_total(*old(self)),
        ensures
            account_wf(*final(self)),
            final(self).account_id == old(self).account_id,
            final(self).positions == old(self).positions,
            account_total(*final(self)) == account_total(*old(self)) - target_amount@,
            final(self).frozen_balance@ == if old(self).frozen_balance@ >= target_amount@ {
                old(self).frozen_balance@ - target_amount@
            } else {
                0
            },
            final(self).available_balance@ == if old(self).frozen_balance@ >= target_amount@ {
                old(self).available_balance@
            } else {
                old(self).available_balance@ - (target_amount@ - old(self).frozen_balance@)
            },
            final(self).audit == old(self).audit,
    {
        if self.frozen_balance.ge(target_amount) {
            self.frozen_balance = self.frozen_balance.sub(target_amount);
        } else {
            let remain = target_amount.sub(self.frozen_balance);
            self.frozen_balance = Money::zero();
            self.available_balance = self.available_balance.sub(remain);
        }
    }

    /// Adjust the position held for `symbol` by `delta_volume` at
    /// `trade_price`. A flat or same-direction trade re-weights the average
    /// price; an opposing trade reduces the size, resets the price on a sign
    /// flip, and clears it when the position closes.
    pub fn update_position(&mut self, symbol: &str, delta_volume: Money, trade_price: Money)
        requires
            account_wf(*old(self)),
            m_bounded(delta_volume@),
            0 <= trade_price@ <= MONEY_MAX_RAW as int,
            m_bounded(pos_volume(old(self).positions@, symbol@) + delta_volume@),
        ensures
            account_wf(*final(self)),
            final(self).account_id == old(self).account_id,
            final(self).available_balance == old(self).available_balance,
            final(self).frozen_balance == old(self).frozen_balance,
            final(self).audit == old(self).audit,
            delta_volume@ == 0 ==> final(self).positions == old(self).positions,
            delta_volume@ != 0 ==> {
                &&& pos_volume(final(self).positions@, symbol@) == pos_volume(
                    old(self).positions@,
                    symbol@,
                ) + delta_volume@
                &&& pos_avg(final(self).positions@, symbol@) == updated_avg(
                    pos_volume(old(self).positions@, symbol@),
                    pos_avg(old(self).positions@, symbol@),
                    delta_volume@,
                    trade_price@,
                )
                &&& forall|s: Seq<char>|
                    s != symbol@ ==> find_pos(final(self).positions@, s) == find_pos(
                        old(self).positions@,
                        s,
                    )
            },
    {
        if delta_volume.is_zero() {
            return;
        }
        let ghost ps0 = self.positions@;
        let idx = match self.find_position_index(symbol) {
            Some(i) => i,
            None => {
                let fresh = Position::empty(self.account_id.duplicate(), symbol.to_owned());
                proof {
                    lemma_find_pos_push(self.positions@, fresh, symbol@);
                    assert(forall|s: Seq<char>|
                        s != symbol@ ==> find_pos(ps0.push(fresh), s) == find_pos(ps0, s)) by {
                        assert forall|s: Seq<char>| s != symbol@ implies find_pos(
                            ps0.push(fresh),
                            s,
                        ) == find_pos(ps0, s) by {
                            lemma_find_pos_push(ps0, fresh, s);
                        }
                    }
                }
                self.positions.push(fresh);
                self.positions.len() - 1
            },
        };
        let ghost ps1 = self.positions@;
        let ghost v0 = pos_volume(ps0, symbol@);
        let ghost a0 = pos_avg(ps0, symbol@);
        proof {
            lemma_find_pos_at(ps1, symbol@, idx as int);
            assert(pos_volume(ps1, symbol@) == v0 && pos_avg(ps1, symbol@) == a0) by {
                if ps1 != ps0 {
                    lemma_find_pos_absent(ps0, symbol@);
                }
            }
        }
        let pv = self.positions[idx].volume;
        let pa = self.positions[idx].average_price;
        let nv = pv.add(delta_volume);
        let same_dir = pv.is_zero() || (pv.is_pos() && delta_volume.is_pos()) || (pv.is_neg()
            && delta_volume.is_neg());
        let new_avg: Money = if same_dir {
            let old_cost = pv.abs().mul(pa);
            let added_cost = delta_volume.abs().mul(trade_price);
            proof {
                lemma_weighted_avg_bounded(
                    iabs(pv@),
                    pa@,
                    iabs(delta_volume@),
                    trade_price@,
                    MONEY_MAX_RAW as int,
                );
                assert(iabs(nv@) == iabs(pv@) + iabs(delta_volume@));
            }
            old_cost.add(added_cost).div(nv.abs())
        } else if nv.is_zero() {
            Money::zero()
        } else if nv.is_pos() == delta_volume.is_pos() {
            trade_price
        } else {
            pa
        };
        let entry = &self.positions[idx];
        let updated = Position {
            account_id: entry.account_id.duplicate(),
            symbol: entry.symbol.clone(),
            volume: nv,
            average_price: new_avg,
        };
        proof {
            lemma_find_pos_update(ps1, idx as int, updated, symbol@);
            assert(forall|s: Seq<char>|
                s != symbol@ ==> find_pos(ps1.update(idx as int, updated), s) == find_pos(
                    ps1,
                    s,
                )) by {
                assert forall|s: Seq<char>| s != symbol@ implies find_pos(
                    ps1.update(idx as int, updated),
                    s,
                ) == find_pos(ps1, s) by {
                    lemma_find_pos_update(ps1, idx as int, updated, s);
                }
            }
        }
        self.positions.set(idx, updated);
    }

    /// Index of the position for `symbol`, if one is recorded.
    fn find_position_index(&self, symbol: &str) -> (r: Option<usize>)
        requires
            positions_unique(self.positions@),
        ensures
            match r {
                Some(i) => {
                    &&& i < self.positions@.len()
                    &&& self.positions@[i as int].symbol@ == symbol@
                    &&& find_pos(self.positions@, symbol@) == Some(self.positions@[i as int])
                },
                None => {
                    &&& find_pos(self.positions@, symbol@) is None
                    &&& forall|j: int|
                        0 <= j < self.positions@.len() ==> (#[trigger] self.positions@[j]).symbol@
                            != symbol@
                },
            },
    {
        let n = self.positions.len();
        let mut i: usize = 0;
        while i < n
            invariant
                n == self.positions@.len(),
                i <= n,
                positions_unique(self.positions@),
                forall|j: int| 0 <= j < i ==> (#[trigger] self.positions@[j]).symbol@ != symbol@,
            decreases n - i,
        {
            if crate::strutil::str_eq(self.positions[i].symbol.as_str(), symbol) {
                proof {
                    lemma_find_pos_at(self.positions@, symbol@, i as int);
                }
                return Some(i);
            }
            i += 1;
        }
        proof {
            lemma_find_pos_absent(self.positions@, symbol@);
        }
        None
    }

    /// A read-only snapshot: balances, their sum as total equity, and the
    /// non-flat positions in recorded order.
    pub fn to_snapshot(&self) -> (r: AccountSnapshot)
        requires
            account_wf(*self),
        ensures
            r.account_id == self.account_id,
            r.available_balance == self.available_balance,
            r.frozen_balance == self.frozen_balance,
            r.total_equity@ == self.available_balance@ + self.frozen_balance@,
            r.positions@ == self.positions@.filter(|p: Position| p.volume@ != 0),
    {
        let total_equity = self.available_balance.add(self.frozen_balance);
        let mut positions: Vec<Position> = Vec::new();
        let n = self.positions.len();
        let mut i: usize = 0;
        proof {
            assert(self.positions@.subrange(0, 0).filter(|p: Position| p.volume@ != 0)
                =~= Seq::<Position>::empty());
        }
        while i < n
            invariant
                n == self.positions@.len(),
                i <= n,
                positions@ == self.positions@.subrange(0, i as int).filter(
                    |p: Position| p.volume@ != 0,
                ),
            decreases n - i,
        {
            let ghost pre = self.positions@.subrange(0, i as int);
            let p = &self.positions[i];
            if !p.volume.is_zero() {
                positions.push(p.duplicate());
            }
            proof {
                let cur = self.positions@.subrange(0, i as int + 1);
                assert(cur.drop_last() =~= pre);
                assert(cur.last() == self.positions@[i as int]);
                reveal_with_fuel(Seq::filter, 2);
            }
            i += 1;
        }
        proof {
            assert(self.positions@.subrange(0, n as int) =~= self.positions@);
        }
        AccountSnapshot {
            account_id: self.account_id.duplicate(),
            available_balance: self.available_balance,
            frozen_balance: self.frozen_balance,
            total_equity,
            positions,
        }
    }
}

/// The amount actually released by an unfreeze request of `amount` against
/// `frozen`: the request, clamped to what is frozen.
pub open spec fn unfreeze_clamp(amount: int, frozen: int) -> int {
    if amount > frozen {
        frozen
    } else {
        amount
    }
}

/// Full cost of a settled buy: `price * volume + commission`.
pub open spec fn trade_cost(t: Trade) -> int {
    m_mul(t.price@, t.volume@) + t.commission@
}

/// Proceeds of a settled sell: `price * volume - commission`.
pub open spec fn trade_gain(t: Trade) -> int {
    m_mul(t.price@, t.volume@) - t.commission@
}

/// Signed position change caused by a trade.
pub open spec fn trade_delta(t: Trade) -> int {
    if t.direction is Buy {
        t.volume@
    } else {
        -t.volume@
    }
}

/// Balance effect of a successful settlement on an account `pre -> post`.
/// On a buy, the cost is deducted from the frozen balance first, spilling
/// into the available balance; any over-frozen estimate is then released.
/// On a sell, the proceeds are credited to the available balance.
pub open spec fn settle_balances(pre: AccountState, post: AccountState, t: Trade, est: int) -> bool {
    if t.direction is Buy {
        {
            let cost = trade_cost(t);
            let fz1 = if pre.frozen_balance@ >= cost {
                pre.frozen_balance@ - cost
            } else {
                0
            };
            let av1 = if pre.frozen_balance@ >= cost {
                pre.available_balance@
            } else {
                pre.available_balance@ - (cost - pre.frozen_balance@)
            };
            let over = est - cost;
            let release = if over > 0 {
                unfreeze_clamp(over, fz1)
            } else {
                0
            };
            &&& post.frozen_balance@ == fz1 - release
            &&& post.available_balance@ == av1 + release
        }
    } else {
        &&& post.frozen_balance@ == pre.frozen_balance@
        &&& post.available_balance@ == pre.available_balance@ + trade_gain(t)
    }
}

/// Position effect of a successful settlement on an account `pre -> post`:
/// the traded symbol moves by the signed trade volume with the documented
/// average-price rule, and every other symbol is untouched.
pub open spec fn settle_positions(pre: AccountState, post: AccountState, t: Trade) -> bool {
    &&& pos_volume(post.positions@, t.symbol@) == pos_volume(pre.positions@, t.symbol@)
        + trade_delta(t)
    &&& pos_avg(post.positions@, t.symbol@) == updated_avg(
        pos_volume(pre.positions@, t.symbol@),
        pos_avg(pre.positions@, t.symbol@),
        trade_delta(t),
        t.price@,
    )
    &&& forall|s: Seq<char>|
        s != t.symbol@ ==> find_pos(post.positions@, s) == find_pos(pre.positions@, s)
}

impl AccountState {
    /// Settle one trade atomically: move the cash per `settle_balances` and
    /// the position per `settle_positions`. A buy whose full cost exceeds
    /// the account's total cash is rejected with `InsufficientFunds` and
    /// leaves the account unchanged.
    pub fn process_trade(&mut self, trade: &Trade, est_req_funds: Money) -> (r: Result<
        (),
        TradeError,
    >)
        requires
            account_wf(*old(self)),
            trade_bounded(*trade),
            0 <= est_req_funds@ <= MONEY_MAX_RAW as int,
            trade.commission@ <= m_mul(trade.price@, trade.volume@),
        ensures
            account_wf(*final(self)),
            final(self).account_id == old(self).account_id,
            match r {
                Ok(()) => {
                    &&& m_bounded(
                        pos_volume(old(self).positions@, trade.symbol@) + trade_delta(*trade),
                    )
                    &&& trade.direction is Buy ==> trade_cost(*trade) <= account_total(*old(self))
                    &&& trade.direction is Sell ==> account_total(*old(self)) + trade_gain(*trade)
                        <= MONEY_MAX_RAW as int
                    &&& settle_balances(*old(self), *final(self), *trade, est_req_funds@)
                    &&& trade.volume@ != 0 ==> settle_positions(*old(self), *final(self), *trade)
                    &&& trade.volume@ == 0 ==> final(self).positions == old(self).positions
                    &&& account_total(*final(self)) == account_total(*old(self))
                        + trade_cash_flow(*trade)
                    &&& final(self).audit@ == old(self).audit@.push(
                        audit_entry(
                            AuditAction::TradeFilled,
                            final(self).available_balance@ - old(self).available_balance@,
                            final(self).frozen_balance@ - old(self).frozen_balance@,
                        ),
                    )
                },
                Err(e) => {
                    &&& *final(self) == *old(self)
                    &&& match e {
                        TradeError::InternalError(_) => !m_bounded(
                            pos_volume(old(self).positions@, trade.symbol@) + trade_delta(*trade),
                        ) || (trade.direction is Sell && account_total(*old(self)) + trade_gain(
                            *trade,
                        ) > MONEY_MAX_RAW as int),
                        TradeError::InsufficientFunds { required, actual } => {
                            &&& trade.direction is Buy
                            &&& m_bounded(
                                pos_volume(old(self).positions@, trade.symbol@) + trade_delta(
                                    *trade,
                                ),
                            )
                            &&& trade_cost(*trade) > account_total(*old(self))
                            &&& required@ == trade_cost(*trade)
                            &&& actual@ == account_total(*old(self))
                        },
                        _ => false,
                    }
                },
            },
    {
        let value = trade.price.mul(trade.volume);
        proof {
            lemma_mul_le_bound(trade.price@, trade.volume@);
        }
        let delta = match trade.direction {
            OrderDirection::Buy => trade.volume,
            OrderDirection::Sell => trade.volume.neg(),
        };
        let held = match self.find_position_index(trade.symbol.as_str()) {
            Some(i) => self.positions[i].volume,
            None => Money::zero(),
        };
        if held.add(delta).abs().gt(Money::from_raw(MONEY_MAX_RAW)) {
            return Err(TradeError::InternalError("position volume out of range".to_owned()));
        }
        match trade.direction {
            OrderDirection::Buy => {
                let cost = value.add(trade.commission);
                let total = self.available_balance.add(self.frozen_balance);
                if total.lt(cost) {
                    return Err(TradeError::InsufficientFunds { required: cost, actual: total });
                }
                let pre_available = self.available_balance;
                let pre_frozen = self.frozen_balance;
                self.deduct_funds(cost);
                let over_frozen = est_req_funds.sub(cost);
                if over_frozen.is_pos() {
                    // Release of the over-frozen estimate, folded into the
                    // one TradeFilled audit row as the stored ledger does.
                    let release = if over_frozen.gt(self.frozen_balance) {
                        self.frozen_balance
                    } else {
                        over_frozen
                    };
                    self.frozen_balance = self.frozen_balance.sub(release);
                    self.available_balance = self.available_balance.add(release);
                }
                self.audit.push(
                    AuditEntry {
                        action: AuditAction::TradeFilled,
                        asset_change: self.available_balance.sub(pre_available),
                        frozen_change: self.frozen_balance.sub(pre_frozen),
                    },
                );
                self.update_position(trade.symbol.as_str(), trade.volume, trade.price);
                Ok(())
            },
            OrderDirection::Sell => {
                let gain = value.sub(trade.commission);
                let total = self.available_balance.add(self.frozen_balance);
                if total.add(gain).gt(Money::from_raw(MONEY_MAX_RAW)) {
                    return Err(TradeError::InternalError("account balance out of range".to_owned()));
                }
                self.add_funds(gain);
                self.audit.push(
                    AuditEntry {
                        action: AuditAction::TradeFilled,
                        asset_change: gain,
                        frozen_change: Money::zero(),
                    },
                );
                self.update_position(trade.symbol.as_str(), trade.volume.neg(), trade.price);
                Ok(())
            },
        }
    }
}

/// `m_mul` of two amounts bounded by `MONEY_MAX_RAW` never exceeds
/// `COST_MAX_RAW`, and a product of a bounded pair stays below the scale
/// times the first factor.
proof fn lemma_mul_le_bound(a: int, b: int)
    requires
        0 <= a <= MONEY_MAX_RAW as int,
        0 <= b <= MONEY_MAX_RAW as int,
    ensures
        0 <= m_mul(a, b) <= COST_MAX_RAW as int,
{
    vstd::arithmetic::mul::lemma_mul_nonnegative(a, b);
    vstd::arithmetic::mul::lemma_mul_upper_bound(a, MONEY_MAX_RAW as int, b, MONEY_MAX_RAW as int);
    vstd::arithmetic::div_mod::lemma_div_pos_is_pos(a * b, MONEY_SCALE as int);
    vstd::arithmetic::div_mod::lemma_div_is_ordered(
        a * b,
        (MONEY_MAX_RAW as int) * (MONEY_MAX_RAW as int),
        MONEY_SCALE as int,
    );
}

/// One operation applied to an account's cash, as seen by the conservation
/// law: deposits, freezes (successful or rejected), unfreezes and settled
/// trades.
pub enum LedgerOp {
    Deposit { amount: Money },
    Freeze { amount: Money },
    Unfreeze { amount: Money },
    Settle { trade: Trade },
}

/// Net cash flow of one ledger operation: deposits add their amount,
/// freezes and unfreezes only move cash between the two balances, and a
/// settled trade contributes its `trade_cash_flow`.
pub open spec fn ledger_op_flow(op: LedgerOp) -> int {
    match op {
        LedgerOp::Deposit { amount } => amount@,
        LedgerOp::Freeze { .. } => 0,
        LedgerOp::Unfreeze { .. } => 0,
        LedgerOp::Settle { trade } => trade_cash_flow(trade),
    }
}

/// Sum of the cash flows of a sequence of ledger operations.
pub open spec fn ledger_flow_sum(ops: Seq<LedgerOp>) -> int
    decreases ops.len(),
{
    if ops.len() == 0 {
        0
    } else {
        ledger_flow_sum(ops.drop_last()) + ledger_op_flow(ops.last())
    }
}

/// Trade conservation: over any sequence of ledger operations on one
/// account, the change of `available + frozen` from the initial to the
/// final state equals the sum of deposits plus sell proceeds minus buy
/// costs and commissions. `totals[i]` is the account's total cash before
/// the `i`-th operation; the premise that each step moves the total by
/// exactly the operation's flow is discharged by the `ensures` of
/// `add_funds`, `freeze_funds`, `unfreeze_funds` and `process_trade`.
pub proof fn lemma_trade_conservation(totals: Seq<int>, ops: Seq<LedgerOp>)
    requires
        totals.len() == ops.len() + 1,
        forall|i: int|
            0 <= i < ops.len() ==> totals[i + 1] == totals[i] + ledger_op_flow(#[trigger] ops[i]),
    ensures
        totals[ops.len() as int] == totals[0] + ledger_flow_sum(ops),
    decreases ops.len(),
{
    if ops.len() > 0 {
        lemma_trade_conservation(totals.drop_last(), ops.drop_last());
    }
}

/// The account registry: every live logical account, each protected by the
/// per-account serialization the ledger requires.
pub struct AccountManager {
    pub accounts: Vec<AccountState>,
}

/// The account with identifier `id`, if registered; scanned from the back,
/// which is equivalent to any other order under `manager_wf`.
pub open spec fn find_acct(accts: Seq<AccountState>, id: Seq<char>) -> Option<AccountState>
    decreases accts.len(),
{
    if accts.len() == 0 {
        None
    } else if accts.last().account_id@ == id {
        Some(accts.last())
    } else {
        find_acct(accts.drop_last(), id)
    }
}

/// Well-formedness of the registry: identifiers are unique and every
/// account satisfies the ledger invariant.
pub open spec fn manager_wf(m: AccountManager) -> bool {
    &&& forall|i: int, j: int|
        0 <= i < j < m.accounts@.len() ==> m.accounts@[i].account_id@ != m.accounts@[j].account_id@
    &&& forall|i: int| 0 <= i < m.accounts@.len() ==> account_wf(#[trigger] m.accounts@[i])
}

pub proof fn lemma_find_acct_at(accts: Seq<AccountState>, id: Seq<char>, i: int)
    requires
        forall|p: int, q: int|
            0 <= p < q < accts.len() ==> accts[p].account_id@ != accts[q].account_id@,
        0 <= i < accts.len(),
        accts[i].account_id@ == id,
    ensures
        find_acct(accts, id) == Some(accts[i]),
    decreases accts.len(),
{
    if i == accts.len() - 1 {
    } else {
        assert(accts.last().account_id@ != id);
        assert(accts.drop_last()[i] == accts[i]);
        lemma_find_acct_at(accts.drop_last(), id, i);
    }
}

pub proof fn lemma_find_acct_absent(accts: Seq<AccountState>, id: Seq<char>)
    requires
        forall|i: int| 0 <= i < accts.len() ==> (#[trigger] accts[i]).account_id@ != id,
    ensures
        find_acct(accts, id) is None,
    decreases accts.len(),
{
    if accts.len() > 0 {
        lemma_find_acct_absent(accts.drop_last(), id);
    }
}

/// The account `find_acct` returns is an element of the registry.
pub proof fn lemma_find_acct_is_element(accts: Seq<AccountState>, id: Seq<char>)
    requires
        find_acct(accts, id) is Some,
    ensures
        exists|i: int|
            0 <= i < accts.len() && accts[i] == find_acct(accts, id).unwrap(),
    decreases accts.len(),
{
    if accts.last().account_id@ == id {
        assert(accts[accts.len() - 1] == find_acct(accts, id).unwrap());
    } else {
        lemma_find_acct_is_element(accts.drop_last(), id);
        let i = choose|i: int|
            0 <= i < accts.drop_last().len() && accts.drop_last()[i] == find_acct(
                accts.drop_last(),
                id,
            ).unwrap();
        assert(accts[i] == find_acct(accts, id).unwrap());
    }
}

pub proof fn lemma_find_acct_update(
    accts: Seq<AccountState>,
    i: int,
    a: AccountState,
    id: Seq<char>,
)
    requires
        forall|p: int, q: int|
            0 <= p < q < accts.len() ==> accts[p].account_id@ != accts[q].account_id@,
        0 <= i < accts.len(),
        a.account_id@ == accts[i].account_id@,
    ensures
        find_acct(accts.update(i, a), accts[i].account_id@) == Some(a),
        id != accts[i].account_id@ ==> find_acct(accts.update(i, a), id) == find_acct(accts, id),
    decreases accts.len(),
{
    let as2 = accts.update(i, a);
    assert(forall|k: int| 0 <= k < accts.len() && k != i ==> as2[k] == accts[k]);
    lemma_find_acct_at(as2, accts[i].account_id@, i);
    if id != accts[i].account_id@ {
        if i == accts.len() - 1 {
            assert(as2.drop_last() =~= accts.drop_last());
        } else {
            if accts.last().account_id@ == id {
                assert(as2.last() == accts.last());
            } else {
                assert(as2.drop_last() =~= accts.drop_last().update(i, a));
                lemma_find_acct_update(accts.drop_last(), i, a, id);
            }
        }
    }
}

impl AccountManager {
    /// An empty registry.
    pub fn new() -> (r: AccountManager)
        ensures
            r.accounts@.len() == 0,
            manager_wf(r),
    {
        AccountManager { accounts: Vec::new() }
    }

    /// Index of the account with identifier `id`, if present.
    fn find_account_index(&self, id: &AccountId) -> (r: Option<usize>)
        requires
            manager_wf(*self),
        ensures
            match r {
                Some(i) => {
                    &&& i < self.accounts@.len()
                    &&& self.accounts@[i as int].account_id@ == id@
                    &&& find_acct(self.accounts@, id@) == Some(self.accounts@[i as int])
                },
                None => find_acct(self.accounts@, id@) is None,
            },
    {
        let n = self.accounts.len();
        let mut i: usize = 0;
        while i < n
            invariant
                n == self.accounts@.len(),
                i <= n,
                manager_wf(*self),
                forall|j: int|
                    0 <= j < i ==> (#[trigger] self.accounts@[j]).account_id@ != id@,
            decreases n - i,
        {
            if self.accounts[i].account_id.same(id) {
                proof {
                    lemma_find_acct_at(self.accounts@, id@, i as int);
                }
                return Some(i);
            }
            i += 1;
        }
        proof {
            lemma_find_acct_absent(self.accounts@, id@);
        }
        None
    }

    /// Register the account if it does not exist yet, funding it with
    /// `initial_balance`; an existing account is left untouched.
    pub fn ensure_account_exists(&mut self, id: AccountId, initial_balance: Money)
        requires
            manager_wf(*old(self)),
            0 <= initial_balance@ <= MONEY_MAX_RAW as int,
        ensures
            manager_wf(*final(self)),
            find_acct(old(self).accounts@, id@) is Some ==> final(self).accounts
                == old(self).accounts,
            find_acct(old(self).accounts@, id@) is None ==> {
                &&& find_acct(final(self).accounts@, id@) matches Some(a)
                    && a.available_balance@ == initial_balance@ && a.frozen_balance@ == 0
                    && a.positions@.len() == 0
                &&& forall|other: Seq<char>|
                    other != id@ ==> find_acct(final(self).accounts@, other) == find_acct(
                        old(self).accounts@,
                        other,
                    )
            },
    {
        match self.find_account_index(&id) {
            Some(_) => {},
            None => {
                let fresh = AccountState::new(id, initial_balance);
                proof {
                    let accts = self.accounts@;
                    assert(accts.push(fresh).last() == fresh);
                    assert(accts.push(fresh).drop_last() =~= accts);
                    assert(forall|i: int|
                        0 <= i < accts.len() ==> (#[trigger] accts[i]).account_id@
                            != fresh.account_id@) by {
                        if exists|i: int|
                            0 <= i < accts.len() && (#[trigger] accts[i]).account_id@
                                == fresh.account_id@ {
                            let i = choose|i: int|
                                0 <= i < accts.len() && (#[trigger] accts[i]).account_id@
                                    == fresh.account_id@;
                            lemma_find_acct_at(accts, fresh.account_id@, i);
                        }
                    }
                }
                self.accounts.push(fresh);
            },
        }
    }

    /// Freeze `amount` on account `id`; `AccountNotFound` when it is not
    /// registered, `InsufficientFunds` when the available balance is too
    /// small.
    pub fn freeze_funds(&mut self, id: &AccountId, amount: Money) -> (r: Result<(), TradeError>)
        requires
            manager_wf(*old(self)),
            0 <= amount@ <= MONEY_MAX_RAW as int,
        ensures
            manager_wf(*final(self)),
            forall|other: Seq<char>|
                other != id@ ==> find_acct(final(self).accounts@, other) == find_acct(
                    old(self).accounts@,
                    other,
                ),
            match r {
                Ok(()) => {
                    &&& find_acct(old(self).accounts@, id@) matches Some(pre)
                        && find_acct(final(self).accounts@, id@) matches Some(post)
                        && pre.available_balance@ >= amount@
                        && post.available_balance@ == pre.available_balance@ - amount@
                        && post.frozen_balance@ == pre.frozen_balance@ + amount@
                        && post.positions == pre.positions && post.account_id == pre.account_id
                        && post.audit@ == pre.audit@.push(
                        audit_entry(AuditAction::FreezeFunds, -amount@, amount@),
                    )
                },
                Err(TradeError::AccountNotFound(_)) => {
                    &&& find_acct(old(self).accounts@, id@) is None
                    &&& final(self).accounts@ == old(self).accounts@
                },
                Err(TradeError::InsufficientFunds { required, actual }) => {
                    &&& find_acct(old(self).accounts@, id@) matches Some(pre)
                        && required == amount && actual == pre.available_balance
                        && pre.available_balance@ < amount@
                    &&& final(self).accounts@ == old(self).accounts@
                },
                Err(_) => false,
            },
    {
        let i = match self.find_account_index(id) {
            Some(i) => i,
            None => {
                return Err(TradeError::AccountNotFound(id.0.clone()));
            },
        };
        let ghost accts0 = self.accounts@;
        let mut acct = self.accounts.remove(i);
        let res = acct.freeze_funds(amount);
        self.accounts.insert(i, acct);
        proof {
            lemma_remove_insert_is_update(accts0, i as int, acct);
            lemma_manager_update(accts0, i as int, acct, id@);
            if res is Err {
                assert(self.accounts@ =~= accts0);
            }
        }
        res
    }

    /// Release up to `amount` of frozen funds on account `id` back to its
    /// available balance.
    pub fn unfreeze_funds(&mut self, id: &AccountId, amount: Money) -> (r: Result<
        (),
        TradeError,
    >)
        requires
            manager_wf(*old(self)),
            0 <= amount@ <= MONEY_MAX_RAW as int,
        ensures
            manager_wf(*final(self)),
            forall|other: Seq<char>|
                other != id@ ==> find_acct(final(self).accounts@, other) == find_acct(
                    old(self).accounts@,
                    other,
                ),
            match r {
                Ok(()) => {
                    &&& find_acct(old(self).accounts@, id@) matches Some(pre)
                        && find_acct(final(self).accounts@, id@) matches Some(post)
                        && post.frozen_balance@ == pre.frozen_balance@ - unfreeze_clamp(
                        amount@,
                        pre.frozen_balance@,
                    ) && post.available_balance@ == pre.available_balance@ + unfreeze_clamp(
                        amount@,
                        pre.frozen_balance@,
                    ) && post.positions == pre.positions && post.account_id == pre.account_id
                        && post.audit@ == pre.audit@.push(
                        audit_entry(
                            AuditAction::UnfreezeFunds,
                            unfreeze_clamp(amount@, pre.frozen_balance@),
                            -unfreeze_clamp(amount@, pre.frozen_balance@),
                        ),
                    )
                },
                Err(e) => {
                    &&& e matches TradeError::AccountNotFound(_)
                    &&& find_acct(old(self).accounts@, id@) is None
                    &&& final(self).accounts@ == old(self).accounts@
                },
            },
    {
        let i = match self.find_account_index(id) {
            Some(i) => i,
            None => {
                return Err(TradeError::AccountNotFound(id.0.clone()));
            },
        };
        let ghost accts0 = self.accounts@;
        let mut acct = self.accounts.remove(i);
        acct.unfreeze_funds(amount);
        self.accounts.insert(i, acct);
        proof {
            lemma_remove_insert_is_update(accts0, i as int, acct);
            lemma_manager_update(accts0, i as int, acct, id@);
        }
        Ok(())
    }

    /// Settle one trade on account `id`.
    pub fn process_trade(&mut self, id: &AccountId, trade: &Trade, est_req_funds: Money) -> (r:
        Result<(), TradeError>)
        requires
            manager_wf(*old(self)),
            trade_bounded(*trade),
            0 <= est_req_funds@ <= MONEY_MAX_RAW as int,
            trade.commission@ <= m_mul(trade.price@, trade.volume@),
        ensures
            manager_wf(*final(self)),
            forall|other: Seq<char>|
                other != id@ ==> find_acct(final(self).accounts@, other) == find_acct(
                    old(self).accounts@,
                    other,
                ),
            match r {
                Ok(()) => {
                    &&& find_acct(old(self).accounts@, id@) matches Some(pre)
                        && find_acct(final(self).accounts@, id@) matches Some(post)
                        && settle_balances(pre, post, *trade, est_req_funds@)
                        && (trade.volume@ != 0 ==> settle_positions(pre, post, *trade))
                        && account_total(post) == account_total(pre) + trade_cash_flow(*trade)
                        && m_bounded(pos_volume(pre.positions@, trade.symbol@) + trade_delta(*trade))
                        && (trade.direction is Buy ==> trade_cost(*trade) <= account_total(pre))
                        && (trade.direction is Sell ==> account_total(pre) + trade_gain(*trade)
                        <= MONEY_MAX_RAW as int)
                },
                Err(TradeError::AccountNotFound(_)) => {
                    &&& find_acct(old(self).accounts@, id@) is None
                    &&& final(self).accounts@ == old(self).accounts@
                },
                Err(TradeError::InsufficientFunds { required, actual }) => {
                    &&& find_acct(old(self).accounts@, id@) matches Some(pre)
                        && trade.direction is Buy && required@ == trade_cost(*trade)
                        && actual@ == account_total(pre) && trade_cost(*trade)
                        > account_total(pre)
                    &&& final(self).accounts@ == old(self).accounts@
                },
                Err(TradeError::InternalError(_)) => {
                    &&& find_acct(old(self).accounts@, id@) matches Some(pre) && (!m_bounded(
                        pos_volume(pre.positions@, trade.symbol@) + trade_delta(*trade),
                    ) || (trade.direction is Sell && account_total(pre) + trade_gain(*trade)
                        > MONEY_MAX_RAW as int))
                    &&& final(self).accounts@ == old(self).accounts@
                },
                Err(_) => false,
            },
    {
        let i = match self.find_account_index(id) {
            Some(i) => i,
            None => {
                return Err(TradeError::AccountNotFound(id.0.clone()));
            },
        };
        let ghost accts0 = self.accounts@;
        let mut acct = self.accounts.remove(i);
        let res = acct.process_trade(trade, est_req_funds);
        self.accounts.insert(i, acct);
        proof {
            lemma_remove_insert_is_update(accts0, i as int, acct);
            lemma_manager_update(accts0, i as int, acct, id@);
            if res is Err {
                assert(self.accounts@ =~= accts0);
            }
        }
        res
    }

    /// Credit `amount` to account `id` (a privileged deposit); fails with
    /// `InternalError` when the account's total cash would leave the
    /// representable range.
    pub fn deposit(&mut self, id: &AccountId, amount: Money) -> (r: Result<(), TradeError>)
        requires
            manager_wf(*old(self)),
            0 <= amount@ <= MONEY_MAX_RAW as int,
        ensures
            manager_wf(*final(self)),
            forall|other: Seq<char>|
                other != id@ ==> find_acct(final(self).accounts@, other) == find_acct(
                    old(self).accounts@,
                    other,
                ),
            match r {
                Ok(()) => {
                    &&& find_acct(old(self).accounts@, id@) matches Some(pre)
                        && find_acct(final(self).accounts@, id@) matches Some(post)
                        && post.available_balance@ == pre.available_balance@ + amount@
                        && post.frozen_balance == pre.frozen_balance
                        && post.positions == pre.positions && post.account_id == pre.account_id
                        && post.audit@ == pre.audit@.push(
                        audit_entry(AuditAction::Deposit, amount@, 0),
                    )
                },
                Err(TradeError::AccountNotFound(_)) => {
                    &&& find_acct(old(self).accounts@, id@) is None
                    &&& final(self).accounts@ == old(self).accounts@
                },
                Err(TradeError::InternalError(_)) => {
                    &&& find_acct(old(self).accounts@, id@) matches Some(pre) && account_total(
                        pre,
                    ) + amount@ > MONEY_MAX_RAW as int
                    &&& final(self).accounts@ == old(self).accounts@
                },
                Err(_) => false,
            },
    {
        let i = match self.find_account_index(id) {
            Some(i) => i,
            None => {
                return Err(TradeError::AccountNotFound(id.0.clone()));
            },
        };
        let headroom = Money::from_raw(MONEY_MAX_RAW).sub(
            self.accounts[i].available_balance.add(self.accounts[i].frozen_balance),
        );
        if headroom.lt(amount) {
            return Err(TradeError::InternalError(String::new()));
        }
        let ghost accts0 = self.accounts@;
        let mut acct = self.accounts.remove(i);
        acct.add_funds(amount);
        acct.audit.push(
            AuditEntry {
                action: AuditAction::Deposit,
                asset_change: amount,
                frozen_change: Money::zero(),
            },
        );
        self.accounts.insert(i, acct);
        proof {
            lemma_remove_insert_is_update(accts0, i as int, acct);
            lemma_manager_update(accts0, i as int, acct, id@);
        }
        Ok(())
    }

    /// A read-only snapshot of account `id`.
    pub fn snapshot(&self, id: &AccountId) -> (r: Result<AccountSnapshot, TradeError>)
        requires
            manager_wf(*self),
        ensures
            match r {
                Ok(s) => {
                    &&& find_acct(self.accounts@, id@) matches Some(a)
                        && s.account_id == a.account_id
                        && s.available_balance == a.available_balance
                        && s.frozen_balance == a.frozen_balance
                        && s.total_equity@ == account_total(a)
                        && s.positions@ == a.positions@.filter(|p: Position| p.volume@ != 0)
                },
                Err(e) => {
                    &&& e matches TradeError::AccountNotFound(_)
                    &&& find_acct(self.accounts@, id@) is None
                },
            },
    {
        match self.find_account_index(id) {
            Some(i) => Ok(self.accounts[i].to_snapshot()),
            None => Err(TradeError::AccountNotFound(id.0.clone())),
        }
    }
}

/// Removing an element and re-inserting a new one at the same index is an
/// update.
proof fn lemma_remove_insert_is_update(s: Seq<AccountState>, i: int, a: AccountState)
    requires
        0 <= i < s.len(),
    ensures
        s.remove(i).insert(i, a) =~= s.update(i, a),
{
}

/// After updating index `i` with an account of the same identifier, the
/// registry stays well formed, that identifier maps to the new account,
/// and every other identifier is untouched.
proof fn lemma_manager_update(accts: Seq<AccountState>, i: int, a: AccountState, id: Seq<char>)
    requires
        forall|p: int, q: int|
            0 <= p < q < accts.len() ==> accts[p].account_id@ != accts[q].account_id@,
        forall|k: int| 0 <= k < accts.len() ==> account_wf(#[trigger] accts[k]),
        0 <= i < accts.len(),
        a.account_id@ == accts[i].account_id@,
        accts[i].account_id@ == id,
        account_wf(a),
    ensures
        find_acct(accts.update(i, a), id) == Some(a),
        forall|other: Seq<char>|
            other != id ==> find_acct(accts.update(i, a), other) == find_acct(accts, other),
        forall|p: int, q: int|
            0 <= p < q < accts.update(i, a).len() ==> accts.update(i, a)[p].account_id@
                != accts.update(i, a)[q].account_id@,
        forall|k: int| 0 <= k < accts.update(i, a).len() ==> account_wf(
            #[trigger] accts.update(i, a)[k],
        ),
        find_acct(accts, id) == Some(accts[i]),
    decreases accts.len(),
{
    lemma_find_acct_at(accts, id, i);
    lemma_find_acct_update(accts, i, a, id);
    assert forall|other: Seq<char>| other != id implies find_acct(accts.update(i, a), other)
        == find_acct(accts, other) by {
        lemma_find_acct_update(accts, i, a, other);
    }
}

} // verus!
