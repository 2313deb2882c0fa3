//! Verified core of an ONNX Runtime session orchestrator with dynamic batching.
pub mod actor;
pub mod benchmarks;
pub mod error;
pub mod helpers;
pub mod server;
pub mod session;
pub mod tensor;
