[package]
name = "gpu_buffers"
version = "0.1.0"
edition = "2021"
publish = false

[dependencies]
bitflags = "2"
calloop = "0.14"
profiling = "1"
rustix = { version = "1", features = ["event", "fs", "mm", "time"] }
thiserror = "2"
tracing = "0.1"
