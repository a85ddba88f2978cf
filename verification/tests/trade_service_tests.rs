use okane::account::AccountManager;
use okane::backtest::BacktestDriver;
use okane::common::FakeClockProvider;
use okane::market::Candle;
use okane::matcher::LocalMatchEngine;
use okane::money::Money;
use okane::orders::{AccountId, Order, OrderDirection, OrderId, OrderStatus, TradeError};
use okane::pending::MemoryPendingOrderStore;
use okane::service::TradeService;

fn service_with_account(account: &str, funds: i64, commission_raw: i128) -> TradeService {
    let mut accounts = AccountManager::new();
    accounts.ensure_account_exists(AccountId(account.to_string()), Money::from_int(funds));
    let matcher = LocalMatchEngine::new(Money::from_raw(commission_raw));
    let pending = MemoryPendingOrderStore::new();
    TradeService::new(accounts, matcher, pending)
}

fn order(
    id: &str,
    account: &str,
    symbol: &str,
    direction: OrderDirection,
    price: Option<Money>,
    volume: i64,
) -> Order {
    Order::new(
        OrderId(id.to_string()),
        AccountId(account.to_string()),
        symbol.to_string(),
        direction,
        price,
        Money::from_int(volume),
        0,
    )
}

#[test]
fn test_high_concurrency_order_execution() {
    // 100 market buys of 10 units and 50 market sells of 10 units at a
    // reference price of 150 and a commission rate of 0.0001, against an
    // account funded with 1,000,000.
    let acct = "TestWallet_01";
    let mut svc = service_with_account(acct, 1_000_000, 1);
    svc.set_quote("AAPL", Money::from_int(150));

    for i in 0..100 {
        let o = order(
            &format!("BUY_{}", i),
            acct,
            "AAPL",
            OrderDirection::Buy,
            None,
            10,
        );
        assert!(svc.submit_order(o).is_ok());
    }
    for i in 0..50 {
        let o = order(
            &format!("SELL_{}", i),
            acct,
            "AAPL",
            OrderDirection::Sell,
            None,
            10,
        );
        assert!(svc.submit_order(o).is_ok());
    }

    let snapshot = svc.get_account(AccountId(acct.to_string())).unwrap();
    assert_eq!(snapshot.frozen_balance, Money::from_int(0));
    // 1,000,000 - 100*10*150*1.0001 + 50*10*150*0.9999 = 924,977.5
    assert_eq!(snapshot.available_balance, Money::from_raw(9_249_775_000));
    assert_eq!(snapshot.positions.len(), 1);
    let pos = &snapshot.positions[0];
    assert_eq!(pos.symbol, "AAPL");
    assert_eq!(pos.volume, Money::from_int(500));
    assert_eq!(pos.average_price, Money::from_int(150));
}

#[test]
fn test_insufficient_funds_rejection() {
    // Account funded with 10; a market buy of 1 unit at reference price
    // 150 must be rejected and leave the account untouched.
    let acct = "PoorWallet";
    let mut svc = service_with_account(acct, 10, 0);
    svc.set_quote("AAPL", Money::from_int(150));

    let o = order("B_1", acct, "AAPL", OrderDirection::Buy, None, 1);
    let res = svc.submit_order(o);
    match res {
        Err(TradeError::InsufficientFunds { required, actual }) => {
            assert_eq!(required, Money::from_int(150));
            assert_eq!(actual, Money::from_int(10));
        }
        other => panic!("expected InsufficientFunds, got {:?}", other),
    }

    let snapshot = svc.get_account(AccountId(acct.to_string())).unwrap();
    assert_eq!(snapshot.available_balance, Money::from_int(10));
    assert_eq!(snapshot.frozen_balance, Money::from_int(0));
    assert!(snapshot.positions.is_empty());
}

#[test]
fn test_submit_order_rejects_zero_volume() {
    let acct = "W1";
    let mut svc = service_with_account(acct, 1_000, 0);
    svc.set_quote("AAPL", Money::from_int(150));
    let o = order("Z_1", acct, "AAPL", OrderDirection::Buy, None, 0);
    assert_eq!(svc.submit_order(o), Err(TradeError::InvalidOrderVolume));
    let mapped = okane::api::ApiError::from_trade_error(TradeError::InvalidOrderVolume);
    assert_eq!(mapped.status_code(), 400);
}

#[test]
fn test_cancel_after_freeze_restores_funds() {
    // Buy limit 100 with volume 10 for an account holding 10,000: the
    // save freezes 1,000; the cancel releases it in full.
    let acct = "W2";
    let mut svc = service_with_account(acct, 10_000, 0);
    svc.set_quote("AAPL", Money::from_int(100));

    let o = order(
        "L_1",
        acct,
        "AAPL",
        OrderDirection::Buy,
        Some(Money::from_int(100)),
        10,
    );
    assert!(svc.submit_order(o).is_ok());
    let snapshot = svc.get_account(AccountId(acct.to_string())).unwrap();
    assert_eq!(snapshot.available_balance, Money::from_int(9_000));
    assert_eq!(snapshot.frozen_balance, Money::from_int(1_000));

    assert!(svc.cancel_order(OrderId("L_1".to_string())).is_ok());
    let snapshot = svc.get_account(AccountId(acct.to_string())).unwrap();
    assert_eq!(snapshot.available_balance, Money::from_int(10_000));
    assert_eq!(snapshot.frozen_balance, Money::from_int(0));
    assert!(svc.get_order(&OrderId("L_1".to_string())).unwrap().is_none());
}

#[test]
fn test_cancel_twice_never_double_refunds() {
    let acct = "W3";
    let mut svc = service_with_account(acct, 10_000, 0);
    svc.set_quote("AAPL", Money::from_int(100));
    let o = order(
        "L_2",
        acct,
        "AAPL",
        OrderDirection::Buy,
        Some(Money::from_int(100)),
        10,
    );
    assert!(svc.submit_order(o).is_ok());
    assert!(svc.cancel_order(OrderId("L_2".to_string())).is_ok());
    let second = svc.cancel_order(OrderId("L_2".to_string()));
    assert!(matches!(second, Err(TradeError::OrderNotFound(_))));
    let snapshot = svc.get_account(AccountId(acct.to_string())).unwrap();
    assert_eq!(snapshot.available_balance, Money::from_int(10_000));
    assert_eq!(snapshot.frozen_balance, Money::from_int(0));
}

fn candle(time_ms: i64, open: i64, high: i64, low: i64, close: i64) -> Candle {
    Candle {
        time_ms,
        open: Money::from_int(open),
        high: Money::from_int(high),
        low: Money::from_int(low),
        close: Money::from_int(close),
        adj_close: None,
        volume: Money::from_int(1_000),
        is_final: true,
    }
}

#[test]
fn test_backtest_limit_buy_crossing() {
    // Account funded with 10,000; a limit buy at 105 for 10 units on VOO.
    // Feeding the two candles fills the order at 105.
    let acct = "BT1";
    let mut svc = service_with_account(acct, 10_000, 1);
    svc.set_quote("VOO", Money::from_int(100));

    let o = order(
        "LB_1",
        acct,
        "VOO",
        OrderDirection::Buy,
        Some(Money::from_int(105)),
        10,
    );
    assert!(svc.submit_order(o).is_ok());

    let candles = vec![
        candle(1_000, 100, 110, 100, 110),
        candle(2_000, 110, 150, 110, 120),
    ];
    let mut driver = BacktestDriver::new(FakeClockProvider::new(0));
    assert!(driver.run(&mut svc, "VOO", &candles).is_ok());

    let snapshot = svc.get_account(AccountId(acct.to_string())).unwrap();
    // available = 10,000 - 10*105 - commission(0.0001 * 1050) = 8,949.895
    assert_eq!(snapshot.available_balance, Money::from_raw(89_498_950));
    assert_eq!(snapshot.frozen_balance, Money::from_int(0));
    assert_eq!(snapshot.positions.len(), 1);
    assert_eq!(snapshot.positions[0].volume, Money::from_int(10));
    assert_eq!(snapshot.positions[0].average_price, Money::from_int(105));
    assert!(svc.get_order(&OrderId("LB_1".to_string())).unwrap().is_none());
    assert_eq!(driver.time_provider.now_ms(), 2_000);
}

#[test]
fn test_limit_hit_exactly_at_boundary() {
    // A buy limit fills when the candle's low equals the limit price, and
    // a sell limit when the high equals it.
    let acct = "BT2";
    let mut svc = service_with_account(acct, 100_000, 0);
    svc.set_quote("VOO", Money::from_int(100));

    let buy = order(
        "EB_1",
        acct,
        "VOO",
        OrderDirection::Buy,
        Some(Money::from_int(95)),
        1,
    );
    let sell = order(
        "ES_1",
        acct,
        "VOO",
        OrderDirection::Sell,
        Some(Money::from_int(110)),
        1,
    );
    assert!(svc.submit_order(buy).is_ok());
    assert!(svc.submit_order(sell).is_ok());

    // low == 95 and high == 110: both orders cross exactly at the edge.
    let c = candle(1_000, 100, 110, 95, 100);
    assert!(svc.tick("VOO", &c).is_ok());
    assert!(svc.get_order(&OrderId("EB_1".to_string())).unwrap().is_none());
    assert!(svc.get_order(&OrderId("ES_1".to_string())).unwrap().is_none());
}

#[test]
fn test_limit_miss_stays_pending() {
    let acct = "BT3";
    let mut svc = service_with_account(acct, 100_000, 0);
    svc.set_quote("VOO", Money::from_int(100));
    let buy = order(
        "MB_1",
        acct,
        "VOO",
        OrderDirection::Buy,
        Some(Money::from_int(90)),
        1,
    );
    assert!(svc.submit_order(buy).is_ok());
    // low stays above the limit price: no fill.
    let c = candle(1_000, 100, 110, 95, 100);
    assert!(svc.tick("VOO", &c).is_ok());
    let still = svc.get_order(&OrderId("MB_1".to_string())).unwrap();
    assert!(still.is_some());
    assert_eq!(still.unwrap().status, OrderStatus::Pending);
}

#[test]
fn test_submit_order_without_quote_fails() {
    let acct = "W4";
    let mut svc = service_with_account(acct, 1_000, 0);
    let o = order("NQ_1", acct, "MISSING", OrderDirection::Buy, None, 1);
    assert!(matches!(
        svc.submit_order(o),
        Err(TradeError::InternalError(_))
    ));
}

#[test]
fn test_submit_order_unknown_account() {
    let mut svc = service_with_account("known", 1_000, 0);
    svc.set_quote("AAPL", Money::from_int(10));
    let o = order("UA_1", "unknown", "AAPL", OrderDirection::Buy, None, 1);
    assert!(matches!(
        svc.submit_order(o),
        Err(TradeError::AccountNotFound(_))
    ));
}

#[test]
fn test_market_sell_credits_proceeds() {
    let acct = "W5";
    let mut svc = service_with_account(acct, 1_000, 0);
    svc.set_quote("AAPL", Money::from_int(50));
    let o = order("S_1", acct, "AAPL", OrderDirection::Sell, None, 2);
    assert!(svc.submit_order(o).is_ok());
    let snapshot = svc.get_account(AccountId(acct.to_string())).unwrap();
    assert_eq!(snapshot.available_balance, Money::from_int(1_100));
    assert_eq!(snapshot.positions[0].volume, Money::from_int(-2));
}
