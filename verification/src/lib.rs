//! Core of a multi-tenant quantitative-trading engine: fixed-point monetary
//! arithmetic, order / account / matching logic with fund-freezing and
//! settlement invariants, a pending-order book with limit-order crossing,
//! per-symbol market aggregates with a reference-counted registry, strategy
//! lifecycle supervision, and the codecs used at the sandbox boundary.

pub mod account;
pub mod api;
pub mod backtest;
pub mod bridge;
pub mod buffer;
pub mod cache;
pub mod config;
pub mod notify;
pub mod codec;
pub mod common;
pub mod signals;
pub mod store;
pub mod strategy;
pub mod market;
pub mod matcher;
pub mod money;
pub mod orders;
pub mod pending;
pub mod service;
pub mod strutil;

pub use money::Money;
