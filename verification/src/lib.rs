//! A verified order-book matching engine: per-market escrow accounting,
//! content-addressed order identity, and open / cancel / match operations
//! whose exact effect on the engine state is stated and proved.

pub mod types;
pub mod math;
pub mod ledger;
pub mod store;
pub mod oid;
pub mod engine;
pub mod laws;
