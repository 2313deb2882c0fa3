[package]
name = "ort_superserve"
version = "0.1.0"
edition = "2021"
publish = false

[dependencies]
ort = { version = "=2.0.0-rc.15", default-features = false, features = ["ndarray", "load-dynamic", "cuda", "tensorrt", "xnnpack", "coreml"] }
ndarray = "=0.17.2"
anyhow = "=1.0.104"
thiserror = "=2.0.21"
tokio = { version = "=1.54.1", features = ["rt-multi-thread", "macros", "sync", "time", "net"] }
kanal = "=0.1.1"
tracing = "=0.1.44"
uuid = { version = "=1.29.0", features = ["v4"] }
reqwest = { version = "=0.12.28", default-features = false, features = ["json"] }
serde = { version = "=1.0.229", features = ["derive"] }
base64 = "=0.22.1"
image = { version = "=0.25.10", default-features = false, features = ["png"] }
rand = "=0.8.8"
axum = "=0.8.9"
tower-http = { version = "=0.6.11", features = ["cors"] }
actix = "=0.13.5"
batched-fn = "=0.2.5"
once_cell = "=1.21.4"
clap = { version = "=4.6.7", features = ["derive"] }
csv = "=1.4.0"
