//! How ONNX Runtime sessions are configured.
pub mod builder;
