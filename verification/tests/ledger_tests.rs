use okane::account::{AccountManager, AccountState, AuditAction, AuditEntry};
use okane::money::Money;
use okane::orders::{AccountId, OrderDirection, Trade, OrderId, TradeError};

fn account(funds: i64) -> AccountState {
    AccountState::new(AccountId("A1".to_string()), Money::from_int(funds))
}

fn buy_trade(price: i64, volume: i64, commission_raw: i128) -> Trade {
    Trade {
        order_id: OrderId("T1".to_string()),
        account_id: AccountId("A1".to_string()),
        symbol: "AAPL".to_string(),
        direction: OrderDirection::Buy,
        price: Money::from_int(price),
        volume: Money::from_int(volume),
        commission: Money::from_raw(commission_raw),
        timestamp: 0,
    }
}

#[test]
fn test_freeze_and_unfreeze() {
    let mut acct = account(1_000);
    assert!(acct.freeze_funds(Money::from_int(400)).is_ok());
    assert_eq!(acct.available_balance, Money::from_int(600));
    assert_eq!(acct.frozen_balance, Money::from_int(400));

    // An unfreeze beyond what is frozen clamps to the frozen amount.
    acct.unfreeze_funds(Money::from_int(500));
    assert_eq!(acct.available_balance, Money::from_int(1_000));
    assert_eq!(acct.frozen_balance, Money::from_int(0));

    let res = acct.freeze_funds(Money::from_int(2_000));
    match res {
        Err(TradeError::InsufficientFunds { required, actual }) => {
            assert_eq!(required, Money::from_int(2_000));
            assert_eq!(actual, Money::from_int(1_000));
        }
        other => panic!("expected InsufficientFunds, got {:?}", other),
    }
}

#[test]
fn test_settlement_conservation() {
    // Buy 10 at 150 with commission 0.15 after freezing an estimate of
    // 1,500: the total cash drops by exactly price*volume + commission.
    let mut acct = account(10_000);
    assert!(acct.freeze_funds(Money::from_int(1_500)).is_ok());
    let before = acct.available_balance.raw + acct.frozen_balance.raw;
    let trade = buy_trade(150, 10, 1_500);
    assert!(acct.process_trade(&trade, Money::from_int(1_500)).is_ok());
    let after = acct.available_balance.raw + acct.frozen_balance.raw;
    assert_eq!(before - after, 15_001_500); // 1,500.15 in raw units
    assert_eq!(acct.frozen_balance, Money::from_int(0));
    assert_eq!(acct.positions.len(), 1);
    assert_eq!(acct.positions[0].volume, Money::from_int(10));
    assert_eq!(acct.positions[0].average_price, Money::from_int(150));
}

#[test]
fn test_over_frozen_estimate_released() {
    // Freezing 2,000 for a trade that costs 1,500 releases the 500
    // overhang back to the available balance.
    let mut acct = account(10_000);
    assert!(acct.freeze_funds(Money::from_int(2_000)).is_ok());
    let trade = buy_trade(150, 10, 0);
    assert!(acct.process_trade(&trade, Money::from_int(2_000)).is_ok());
    assert_eq!(acct.frozen_balance, Money::from_int(0));
    assert_eq!(acct.available_balance, Money::from_int(8_500));
}

#[test]
fn test_insolvent_settlement_rejected() {
    // A buy whose full cost exceeds the account's total cash is rejected
    // and the balances stay untouched.
    let mut acct = account(100);
    let trade = buy_trade(150, 10, 0);
    let res = acct.process_trade(&trade, Money::from_int(0));
    assert!(matches!(res, Err(TradeError::InsufficientFunds { .. })));
    assert_eq!(acct.available_balance, Money::from_int(100));
    assert_eq!(acct.frozen_balance, Money::from_int(0));
    assert!(acct.positions.is_empty());
}

#[test]
fn test_position_reduction_keeps_average() {
    let mut acct = account(100_000);
    // Open 10 at 100, then 10 more at 200: cost-weighted average 150.
    acct.update_position("AAPL", Money::from_int(10), Money::from_int(100));
    acct.update_position("AAPL", Money::from_int(10), Money::from_int(200));
    assert_eq!(acct.positions[0].volume, Money::from_int(20));
    assert_eq!(acct.positions[0].average_price, Money::from_int(150));
    // A reduction leaves the average price alone.
    acct.update_position("AAPL", Money::from_int(-5), Money::from_int(300));
    assert_eq!(acct.positions[0].volume, Money::from_int(15));
    assert_eq!(acct.positions[0].average_price, Money::from_int(150));
    // Closing the position resets the average price.
    acct.update_position("AAPL", Money::from_int(-15), Money::from_int(300));
    assert_eq!(acct.positions[0].volume, Money::from_int(0));
    assert_eq!(acct.positions[0].average_price, Money::from_int(0));
}

#[test]
fn test_position_flip_resets_to_trade_price() {
    let mut acct = account(100_000);
    acct.update_position("AAPL", Money::from_int(10), Money::from_int(100));
    // Selling 25 flips the position short; the average resets to the
    // trade price.
    acct.update_position("AAPL", Money::from_int(-25), Money::from_int(120));
    assert_eq!(acct.positions[0].volume, Money::from_int(-15));
    assert_eq!(acct.positions[0].average_price, Money::from_int(120));
}

#[test]
fn test_conservation_over_operation_sequence() {
    // Starting from (A0, F0), a deposit, a freeze, a settled buy and a
    // settled sell change available + frozen by exactly
    // deposits + sell proceeds - buy costs - commissions.
    let id = AccountId("A1".to_string());
    let mut mgr = AccountManager::new();
    mgr.ensure_account_exists(id.clone(), Money::from_int(1_000));
    let total = |m: &AccountManager, id: &AccountId| {
        let s = m.snapshot(id).unwrap();
        s.available_balance.raw + s.frozen_balance.raw
    };
    let t0 = total(&mgr, &id);

    assert!(mgr.deposit(&id, Money::from_int(500)).is_ok());
    assert!(mgr.freeze_funds(&id, Money::from_int(300)).is_ok());
    let buy = buy_trade(10, 20, 2_000); // cost 200 + 0.2 commission
    assert!(mgr.process_trade(&id, &buy, Money::from_int(300)).is_ok());
    let sell = Trade {
        direction: OrderDirection::Sell,
        price: Money::from_int(30),
        volume: Money::from_int(5),
        commission: Money::from_raw(1_000), // 0.1
        ..buy_trade(0, 0, 0)
    };
    assert!(mgr.process_trade(&id, &sell, Money::from_int(0)).is_ok());

    let t1 = total(&mgr, &id);
    // 500 deposit + 150 proceeds - 200 cost - 0.2 - 0.1 commissions
    assert_eq!(t1 - t0, 5_000_000 + 1_500_000 - 2_000_000 - 2_000 - 1_000);
}

#[test]
fn test_deposit_beyond_range_rejected() {
    let id = AccountId("A1".to_string());
    let mut mgr = AccountManager::new();
    mgr.ensure_account_exists(id.clone(), Money::from_int(100_000_000_000_000));
    // The account already holds the largest representable amount; another
    // deposit would leave the representable range and is refused.
    let res = mgr.deposit(&id, Money::from_int(1));
    assert!(matches!(res, Err(TradeError::InternalError(_))));
    let snap = mgr.snapshot(&id).unwrap();
    assert_eq!(snap.available_balance, Money::from_int(100_000_000_000_000));
    assert!(mgr.deposit(&AccountId("ghost".to_string()), Money::from_int(1)).is_err());
}

#[test]
fn test_sell_proceeds_beyond_range_rejected() {
    let mut acct = account(100_000_000_000_000);
    let sell = Trade {
        direction: OrderDirection::Sell,
        price: Money::from_int(100_000_000_000_000),
        volume: Money::from_int(10_000),
        commission: Money::from_int(0),
        ..buy_trade(0, 0, 0)
    };
    let res = acct.process_trade(&sell, Money::from_int(0));
    assert!(matches!(res, Err(TradeError::InternalError(_))));
    assert_eq!(acct.available_balance, Money::from_int(100_000_000_000_000));
    assert!(acct.positions.is_empty());
}

#[test]
fn test_snapshot_hides_flat_positions() {
    let mut acct = account(1_000);
    acct.update_position("AAPL", Money::from_int(5), Money::from_int(10));
    acct.update_position("VOO", Money::from_int(3), Money::from_int(10));
    acct.update_position("AAPL", Money::from_int(-5), Money::from_int(10));
    let snap = acct.to_snapshot();
    assert_eq!(snap.positions.len(), 1);
    assert_eq!(snap.positions[0].symbol, "VOO");
    assert_eq!(snap.total_equity, Money::from_int(1_000));
}

#[test]
fn test_audit_rows_record_exact_deltas() {
    let mut acct = account(10_000);
    assert!(acct.freeze_funds(Money::from_int(1_500)).is_ok());
    assert_eq!(
        acct.audit,
        vec![AuditEntry {
            action: AuditAction::FreezeFunds,
            asset_change: Money::from_int(-1_500),
            frozen_change: Money::from_int(1_500),
        }]
    );
    // Buy 10 at 150 with commission 0.15: one TradeFilled row carrying
    // the settlement's exact balance deltas (spill -0.15, frozen -1500).
    let trade = buy_trade(150, 10, 1_500);
    assert!(acct.process_trade(&trade, Money::from_int(1_500)).is_ok());
    assert_eq!(acct.audit.len(), 2);
    assert_eq!(acct.audit[1].action, AuditAction::TradeFilled);
    assert_eq!(acct.audit[1].asset_change, Money::from_raw(-1_500));
    assert_eq!(acct.audit[1].frozen_change, Money::from_int(-1_500));
    // An unfreeze appends its clamped release.
    acct.unfreeze_funds(Money::from_int(7));
    assert_eq!(acct.audit.len(), 3);
    assert_eq!(acct.audit[2].action, AuditAction::UnfreezeFunds);
    assert_eq!(acct.audit[2].asset_change, Money::from_int(0));
    assert_eq!(acct.audit[2].frozen_change, Money::from_int(0));
}

#[test]
fn test_deposit_appends_audit_row() {
    let id = AccountId("A1".to_string());
    let mut mgr = AccountManager::new();
    mgr.ensure_account_exists(id.clone(), Money::from_int(0));
    assert!(mgr.deposit(&id, Money::from_int(250)).is_ok());
    let acct = &mgr.accounts[0];
    assert_eq!(acct.audit.len(), 1);
    assert_eq!(acct.audit[0].action, AuditAction::Deposit);
    assert_eq!(acct.audit[0].asset_change, Money::from_int(250));
    assert_eq!(acct.audit[0].frozen_change, Money::from_int(0));
    // A rejected freeze leaves no row behind.
    assert!(mgr.freeze_funds(&id, Money::from_int(1_000)).is_err());
    assert_eq!(mgr.accounts[0].audit.len(), 1);
}

#[test]
fn test_sell_settlement_audit_row() {
    let mut acct = account(1_000);
    let sell = Trade {
        direction: OrderDirection::Sell,
        price: Money::from_int(30),
        volume: Money::from_int(5),
        commission: Money::from_raw(1_000),
        ..buy_trade(0, 0, 0)
    };
    assert!(acct.process_trade(&sell, Money::from_int(0)).is_ok());
    assert_eq!(acct.audit.len(), 1);
    assert_eq!(acct.audit[0].action, AuditAction::TradeFilled);
    assert_eq!(acct.audit[0].asset_change, Money::from_raw(1_499_000));
    assert_eq!(acct.audit[0].frozen_change, Money::from_int(0));
}
