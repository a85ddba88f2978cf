use okane::common::TimeFrame;
use okane::market::{Candle, MarketAggregate, MarketRegistry, StockStatus, select_history};
use okane::money::Money;

fn candle(time_ms: i64, close: i64, is_final: bool) -> Candle {
    Candle {
        time_ms,
        open: Money::from_int(close),
        high: Money::from_int(close + 1),
        low: Money::from_int(close - 1),
        close: Money::from_int(close),
        adj_close: None,
        volume: Money::from_int(100),
        is_final,
    }
}

#[test]
fn test_aggregate_hot_caches() {
    let mut agg = MarketAggregate::new("AAPL".to_string());
    assert_eq!(agg.status(), StockStatus::Initializing);
    assert!(agg.current_price().is_none());

    let forming = candle(1_000, 150, false);
    agg.apply_candle(forming, TimeFrame::Minute1);
    assert_eq!(agg.status(), StockStatus::Online);
    assert_eq!(agg.current_price(), Some(Money::from_int(150)));
    assert_eq!(agg.latest_candle(TimeFrame::Minute1).unwrap().time_ms, 1_000);
    assert!(agg.last_closed_candle(TimeFrame::Minute1).is_none());
    assert!(agg.latest_candle(TimeFrame::Day1).is_none());

    let closed = candle(2_000, 151, true);
    agg.apply_candle(closed, TimeFrame::Minute1);
    assert_eq!(agg.current_price(), Some(Money::from_int(151)));
    assert_eq!(
        agg.last_closed_candle(TimeFrame::Minute1).unwrap().time_ms,
        2_000
    );
    let recent = agg.recent_candles(TimeFrame::Minute1);
    assert_eq!(recent.len(), 2);
    assert_eq!(recent[0].time_ms, 1_000);
    assert_eq!(recent[1].time_ms, 2_000);
}

#[test]
fn test_registry_freshness_while_consumers_live() {
    // While an aggregate still has a live consumer, another request for
    // the symbol returns the same aggregate identity.
    let mut reg = MarketRegistry::new();
    let id1 = reg.acquire("AAPL");
    let id2 = reg.acquire("AAPL");
    assert_eq!(id1, id2);
    let (id, consumers) = reg.lookup("AAPL").unwrap();
    assert_eq!(id, id1);
    assert_eq!(consumers, 2);
    reg.release("AAPL");
    let id3 = reg.acquire("AAPL");
    assert_eq!(id3, id1);
}

#[test]
fn test_aggregate_eviction_after_last_drop() {
    // Dropping the last consumer queues the symbol; draining the queue
    // removes the mapping.
    let mut reg = MarketRegistry::new();
    let _ = reg.acquire("AAPL");
    reg.release("AAPL");
    reg.drain_cleanup();
    assert!(reg.lookup("AAPL").is_none());

    // A symbol re-acquired between the drop and the cleanup survives the
    // drain with a fresh aggregate.
    let old_id = reg.acquire("MSFT");
    reg.release("MSFT");
    let new_id = reg.acquire("MSFT");
    assert_ne!(old_id, new_id);
    reg.drain_cleanup();
    let (id, consumers) = reg.lookup("MSFT").unwrap();
    assert_eq!(id, new_id);
    assert_eq!(consumers, 1);
}

#[test]
fn test_select_history_prefers_local() {
    let local = vec![candle(1, 10, true)];
    let upstream = vec![candle(2, 20, true), candle(3, 30, true)];
    let chosen = select_history(local.clone(), upstream.clone());
    assert_eq!(chosen.len(), 1);
    assert_eq!(chosen[0].time_ms, 1);
    let fallback = select_history(Vec::new(), upstream);
    assert_eq!(fallback.len(), 2);
    assert_eq!(fallback[0].time_ms, 2);
}

#[test]
fn test_timeframe_codes() {
    assert_eq!(TimeFrame::from_str("1m").unwrap(), TimeFrame::Minute1);
    assert_eq!(TimeFrame::from_str("minute5").unwrap(), TimeFrame::Minute5);
    assert_eq!(TimeFrame::from_str("1h").unwrap(), TimeFrame::Hour1);
    assert_eq!(TimeFrame::from_str("1d").unwrap(), TimeFrame::Day1);
    assert!(TimeFrame::from_str("2w").is_err());
    assert_eq!(TimeFrame::Minute1.code(), "1m");
    assert_eq!(TimeFrame::Day1.code(), "1d");
    assert_eq!(TimeFrame::Minute5.duration_ms(), 300_000);
    assert_eq!(TimeFrame::Day1.duration_ms(), 86_400_000);
}

#[test]
fn test_timeframe_parse_ignores_ascii_case() {
    assert_eq!(TimeFrame::from_str("1M").unwrap(), TimeFrame::Minute1);
    assert_eq!(TimeFrame::from_str("Minute5").unwrap(), TimeFrame::Minute5);
    assert_eq!(TimeFrame::from_str("HOUR1").unwrap(), TimeFrame::Hour1);
    assert_eq!(TimeFrame::from_str("1D").unwrap(), TimeFrame::Day1);
    assert!(TimeFrame::from_str("1w").is_err());
}
