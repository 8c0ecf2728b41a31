//! Catalog reconciliation for a trading-card reference feed: the expansion
//! cache, the card normalizer and the batching of rows for bulk upserts.

pub mod feed;
pub mod price;
pub mod set;
pub mod token;
pub mod expansion;
pub mod metacard;
pub mod batch;
pub mod store;
