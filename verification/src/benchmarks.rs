//! The logic of the benchmark programs that compare serving strategies.
pub mod client;
pub mod servers;
pub mod shared;
