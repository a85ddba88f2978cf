//! Storage-facing types: the store error taxonomy and the static metadata
//! kept about listed securities.

use vstd::prelude::*;

verus! {

/// Errors of the persistence layer.
#[derive(Clone, Debug, PartialEq)]
pub enum StoreError {
    Database(String),
    NotFound,
    Unknown(String),
    InitError(String),
}

/// Static description of one listed security.
#[derive(Clone, Debug)]
pub struct StockMetadata {
    pub symbol: String,
    pub name: String,
    pub exchange: String,
    pub sector: Option<String>,
    pub currency: String,
}

impl StockMetadata {
    /// An exact copy of the metadata.
    pub fn duplicate(&self) -> (r: StockMetadata)
        ensures
            r == *self,
    {
        StockMetadata {
            symbol: self.symbol.clone(),
            name: self.name.clone(),
            exchange: self.exchange.clone(),
            sector: match &self.sector {
                Some(s) => Some(s.clone()),
                None => None,
            },
            currency: self.currency.clone(),
        }
    }
}

} // verus!
