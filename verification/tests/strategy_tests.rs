use okane::common::TimeFrame;
use okane::strategy::{EngineType, StartRequest, StrategyManager, StrategyStatus};

fn request(symbol: &str) -> StartRequest {
    StartRequest {
        symbol: symbol.to_string(),
        account_id: "SystemDefault_01".to_string(),
        timeframe: TimeFrame::Minute1,
        engine_type: EngineType::JavaScript,
        source: b"function onCandle(c) { host.log(0, 'hi'); return 'null'; }".to_vec(),
    }
}

#[test]
fn test_strategy_lifecycle() {
    // Start persists the instance and reports it Running; task completion
    // moves it to Stopped; stopping an already stopped instance is a
    // successful no-op.
    let mut mgr = StrategyManager::new();
    let id = mgr.start_strategy("user-1", request("AAPL"), 100).unwrap();

    let inst = mgr.get_strategy("user-1", &id).unwrap();
    assert_eq!(inst.status, StrategyStatus::Running);
    assert_eq!(inst.symbol, "AAPL");
    assert_eq!(inst.user_id, "user-1");
    assert_eq!(inst.created_at, 100);

    mgr.on_task_finished("user-1", &id, Ok(()), 150);
    let inst = mgr.get_strategy("user-1", &id).unwrap();
    assert_eq!(inst.status, StrategyStatus::Stopped);

    assert!(mgr.stop_strategy("user-1", &id, 200).is_ok());
    let inst = mgr.get_strategy("user-1", &id).unwrap();
    assert_eq!(inst.status, StrategyStatus::Stopped);
}

#[test]
fn test_stop_strategy_idempotent() {
    let mut mgr = StrategyManager::new();
    let id = mgr.start_strategy("user-2", request("VOO"), 10).unwrap();
    assert!(mgr.stop_strategy("user-2", &id, 20).is_ok());
    let first = mgr.get_strategy("user-2", &id).unwrap();
    assert!(mgr.stop_strategy("user-2", &id, 20).is_ok());
    let second = mgr.get_strategy("user-2", &id).unwrap();
    assert_eq!(first.status, second.status);
    assert_eq!(first.updated_at, second.updated_at);
    // Stopping an instance that never existed still succeeds.
    assert!(mgr.stop_strategy("user-2", "missing", 30).is_ok());
}

#[test]
fn test_failed_task_records_message() {
    let mut mgr = StrategyManager::new();
    let id = mgr.start_strategy("user-3", request("MSFT"), 10).unwrap();
    mgr.on_task_finished("user-3", &id, Err("fuel exhausted".to_string()), 20);
    let inst = mgr.get_strategy("user-3", &id).unwrap();
    assert_eq!(inst.status, StrategyStatus::Failed("fuel exhausted".to_string()));
}

#[test]
fn test_list_strategies_scoped_by_user() {
    let mut mgr = StrategyManager::new();
    let a = mgr.start_strategy("alice", request("AAPL"), 1).unwrap();
    let _b = mgr.start_strategy("bob", request("VOO"), 2).unwrap();
    let mine = mgr.list_strategies("alice").unwrap();
    assert_eq!(mine.len(), 1);
    assert_eq!(mine[0].id, a);
    assert!(mgr.get_strategy("alice", "nope").is_err());
}

#[test]
fn test_engine_type_names() {
    assert_eq!(EngineType::from_str("JavaScript").unwrap(), EngineType::JavaScript);
    assert_eq!(EngineType::from_str("Wasm").unwrap(), EngineType::Wasm);
    assert!(EngineType::from_str("Python").is_err());
    assert_eq!(EngineType::JavaScript.code(), "JavaScript");
    assert_eq!(EngineType::Wasm.code(), "Wasm");
}

#[test]
fn test_status_never_moves_backward() {
    // A late task report arriving after the user stopped the strategy
    // must not overwrite the terminal status.
    let mut mgr = StrategyManager::new();
    let id = mgr.start_strategy("user-4", request("AAPL"), 10).unwrap();
    assert!(mgr.stop_strategy("user-4", &id, 20).is_ok());
    mgr.on_task_finished("user-4", &id, Err("aborted".to_string()), 30);
    let inst = mgr.get_strategy("user-4", &id).unwrap();
    assert_eq!(inst.status, StrategyStatus::Stopped);
    assert_eq!(inst.updated_at, 20);
}
