//! Strategy signals: the typed events a strategy emits, and the handler
//! port through which they are dispatched.

use vstd::prelude::*;

verus! {

/// Business classification of a signal.
#[derive(Clone, Copy, Debug, PartialEq, Eq, Structural)]
pub enum SignalKind {
    LongEntry,
    ShortEntry,
    LongExit,
    ShortExit,
    Alert,
    Info,
}

/// A domain event emitted by a strategy and consumed by handlers.
#[derive(Clone, Debug)]
pub struct Signal {
    pub id: String,
    pub symbol: String,
    /// Emission time, in milliseconds since the epoch.
    pub timestamp_ms: i64,
    pub kind: SignalKind,
    pub strategy_id: String,
    /// Free-form context, as key-value pairs.
    pub metadata: Vec<(String, String)>,
}

/// Errors of the strategy engine.
#[derive(Clone, Debug, PartialEq)]
pub enum EngineError {
    /// The strategy plugin itself failed (load, fuel, memory or a trap).
    Plugin(String),
    /// A registered handler failed while consuming a signal.
    Handler(String),
    /// Market data could not be obtained.
    Market(String),
}

/// Consumer port for signals: anything wishing to react to strategy
/// signals implements this and registers with the engine.
pub trait SignalHandler {
    /// Whether this handler wants the given signal.
    fn matches(&self, signal: &Signal) -> bool;

    /// Consume one signal.
    fn handle(&mut self, signal: &Signal) -> Result<(), EngineError>;
}

} // verus!
