use okane::matcher::LocalMatchEngine;
use okane::money::Money;
use okane::orders::{AccountId, Order, OrderDirection, OrderId, OrderStatus};

#[test]
fn test_matcher_full_fill() {
    let matcher = LocalMatchEngine::new(Money::from_raw(1));
    let mut order = Order::new(
        OrderId("M1".to_string()),
        AccountId("A1".to_string()),
        "AAPL".to_string(),
        OrderDirection::Buy,
        None,
        Money::from_int(10),
        7,
    );
    let trade = matcher
        .execute_order(&mut order, Money::from_int(150), 99)
        .expect("a pending order must fill");
    assert_eq!(trade.price, Money::from_int(150));
    assert_eq!(trade.volume, Money::from_int(10));
    assert_eq!(trade.commission, Money::from_raw(1_500));
    assert_eq!(trade.timestamp, 99);
    assert_eq!(order.status, OrderStatus::Filled);
    assert_eq!(order.filled_volume, order.volume);

    // A canceled order is left alone.
    let mut canceled = order.duplicate();
    canceled.status = OrderStatus::Canceled;
    assert!(matcher
        .execute_order(&mut canceled, Money::from_int(150), 99)
        .is_none());
    assert_eq!(canceled.status, OrderStatus::Canceled);
}

#[test]
fn test_limit_order_fills_at_limit_price() {
    let matcher = LocalMatchEngine::new(Money::from_raw(0));
    let mut order = Order::new(
        OrderId("M2".to_string()),
        AccountId("A1".to_string()),
        "AAPL".to_string(),
        OrderDirection::Buy,
        Some(Money::from_int(105)),
        Money::from_int(10),
        0,
    );
    let trade = matcher
        .execute_order(&mut order, Money::from_int(90), 0)
        .unwrap();
    assert_eq!(trade.price, Money::from_int(105));
    assert_eq!(trade.commission, Money::from_int(0));
}
