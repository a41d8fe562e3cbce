//! The pipeline that runs on the pool: intake, batching, proof ingestion and settlement.

pub mod fifo;
pub mod pool;
