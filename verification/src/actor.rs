//! The actors of the server: the batcher that forms batches and the workers
//! that run them.
pub mod batcher;
pub mod worker;
