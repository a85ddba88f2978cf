use okane::bridge::{base64_decode, frame_payload, history_window, unframe_payload, candles_to_json};
use okane::codec::{candle_to_json, order_to_json, parse_order_json, parse_signal_json,
    signal_to_json};
use okane::market::Candle;
use okane::money::Money;
use okane::orders::{AccountId, Order, OrderDirection, OrderId, OrderStatus};
use okane::signals::{Signal, SignalKind};

fn sample_order() -> Order {
    Order {
        id: OrderId("ord-1".to_string()),
        account_id: AccountId("acct-9".to_string()),
        symbol: "AAPL".to_string(),
        direction: OrderDirection::Buy,
        price: Some(Money::from_raw(1_055_000)),
        volume: Money::from_int(10),
        filled_volume: Money::from_int(0),
        status: OrderStatus::Pending,
        created_at: 1_710_000_000_000,
    }
}

#[test]
fn test_order_json_shape() {
    let o = sample_order();
    let json = order_to_json(&o);
    assert_eq!(
        String::from_utf8(json).unwrap(),
        "{\"id\":\"ord-1\",\"account_id\":\"acct-9\",\"symbol\":\"AAPL\",\
         \"direction\":\"Buy\",\"price\":\"105.5\",\"volume\":\"10\",\
         \"filled_volume\":\"0\",\"status\":\"Pending\",\"created_at\":1710000000000}"
    );
}

#[test]
fn test_order_json_round_trip() {
    let o = sample_order();
    let json = order_to_json(&o);
    let back = parse_order_json(json.as_slice()).expect("canonical rendering must parse");
    assert_eq!(back.id, o.id);
    assert_eq!(back.account_id, o.account_id);
    assert_eq!(back.symbol, o.symbol);
    assert_eq!(back.direction, o.direction);
    assert_eq!(back.price, o.price);
    assert_eq!(back.volume, o.volume);
    assert_eq!(back.filled_volume, o.filled_volume);
    assert_eq!(back.status, o.status);
    assert_eq!(back.created_at, o.created_at);
}

#[test]
fn test_order_json_round_trip_market_sell() {
    let mut o = sample_order();
    o.price = None;
    o.direction = OrderDirection::Sell;
    o.status = OrderStatus::Filled;
    o.filled_volume = o.volume;
    o.created_at = -5;
    let json = order_to_json(&o);
    let back = parse_order_json(json.as_slice()).expect("canonical rendering must parse");
    assert_eq!(back.price, None);
    assert_eq!(back.direction, OrderDirection::Sell);
    assert_eq!(back.status, OrderStatus::Filled);
    assert_eq!(back.created_at, -5);
}

#[test]
fn test_order_json_rejects_altered_bytes() {
    let o = sample_order();
    let mut json = order_to_json(&o);
    let last = json.len() - 1;
    json[last] = b']';
    assert!(parse_order_json(json.as_slice()).is_none());
}

#[test]
fn test_candle_json_shape() {
    let c = Candle {
        time_ms: 1_710_000_000_000,
        open: Money::from_raw(1_505_000),
        high: Money::from_int(152),
        low: Money::from_int(149),
        close: Money::from_int(151),
        adj_close: None,
        volume: Money::from_int(1_000_000),
        is_final: true,
    };
    let json = candle_to_json(&c);
    assert_eq!(
        String::from_utf8(json).unwrap(),
        "{\"time\":\"2024-03-09T16:00:00.000Z\",\"open\":150.5,\"high\":152,\"low\":149,\
         \"close\":151,\"adj_close\":null,\"volume\":1000000,\"is_final\":true}"
    );
}

#[test]
fn test_signal_json_round_trip() {
    let sg = Signal {
        id: "sig-1".to_string(),
        symbol: "AAPL".to_string(),
        timestamp_ms: 1_710_000_000_123,
        kind: SignalKind::LongEntry,
        strategy_id: "strat-7".to_string(),
        metadata: vec![
            ("reason".to_string(), "breakout".to_string()),
            ("confidence".to_string(), "high".to_string()),
        ],
    };
    let json = signal_to_json(&sg);
    let back = parse_signal_json(json.as_slice()).expect("canonical rendering must parse");
    assert_eq!(back.id, sg.id);
    assert_eq!(back.symbol, sg.symbol);
    assert_eq!(back.timestamp_ms, sg.timestamp_ms);
    assert_eq!(back.kind, sg.kind);
    assert_eq!(back.strategy_id, sg.strategy_id);
    assert_eq!(back.metadata, sg.metadata);
}

#[test]
fn test_signal_json_empty_metadata() {
    let sg = Signal {
        id: "s".to_string(),
        symbol: "VOO".to_string(),
        timestamp_ms: 0,
        kind: SignalKind::Info,
        strategy_id: "x".to_string(),
        metadata: vec![],
    };
    let json = signal_to_json(&sg);
    assert_eq!(
        String::from_utf8(json.clone()).unwrap(),
        "{\"id\":\"s\",\"symbol\":\"VOO\",\"timestamp\":\"1970-01-01T00:00:00.000Z\",\
         \"kind\":\"Info\",\"strategy_id\":\"x\",\"metadata\":{}}"
    );
    let back = parse_signal_json(json.as_slice()).unwrap();
    assert!(back.metadata.is_empty());
}

#[test]
fn test_base64_decode_strategy_source() {
    let decoded = base64_decode("Y29uc29sZS5sb2coJ2hlbGxvJyk7").unwrap();
    assert_eq!(String::from_utf8(decoded).unwrap(), "console.log('hello');");
    let padded = base64_decode("aGk=").unwrap();
    assert_eq!(String::from_utf8(padded).unwrap(), "hi");
    assert!(base64_decode("not base64!").is_err());
}

#[test]
fn test_frame_round_trip() {
    let payload = b"{\"ok\":true}".to_vec();
    let framed = frame_payload(payload.as_slice());
    assert_eq!(framed.len(), payload.len() + 4);
    assert_eq!(framed[0] as usize, payload.len());
    assert_eq!(&framed[1..4], &[0, 0, 0]);
    let back = unframe_payload(framed.as_slice()).unwrap();
    assert_eq!(back, payload);
    assert!(unframe_payload(b"\x05\x00\x00\x00hi").is_none());
}

fn history_candle(time_ms: i64) -> Candle {
    Candle {
        time_ms,
        open: Money::from_int(1),
        high: Money::from_int(2),
        low: Money::from_int(1),
        close: Money::from_int(2),
        adj_close: None,
        volume: Money::from_int(5),
        is_final: true,
    }
}

#[test]
fn test_host_fetch_history_window() {
    // Eight stored bars; a fetch for 5 bars at wall time 6 returns
    // exactly 5 bars, all at or before 6, still ascending.
    let candles: Vec<Candle> = (1..=8).map(history_candle).collect();
    let window = history_window(&candles, 5, 6);
    assert_eq!(window.len(), 5);
    let times: Vec<i64> = window.iter().map(|c| c.time_ms).collect();
    assert_eq!(times, vec![2, 3, 4, 5, 6]);
    let json = candles_to_json(&window);
    let text = String::from_utf8(json).unwrap();
    assert!(text.starts_with("[{\"time\":\"1970-01-01T00:00:00.002Z\","));
    assert!(text.ends_with("}]"));
    assert_eq!(text.matches("{\"time\":").count(), 5);
}
