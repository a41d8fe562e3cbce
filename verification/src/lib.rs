//! A transaction relay for an account-abstraction protocol: signed operations
//! are pooled, grouped into fixed-size batches, matched with a validity proof
//! and settled on chain in one call.

pub mod abi;
pub mod eth;
pub mod laws;
pub mod model;
pub mod open_rpc_server;
pub mod schedule;
pub mod service;
pub mod types;
