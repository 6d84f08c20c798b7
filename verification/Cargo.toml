[package]
name = "wx_store"
version = "0.1.0"
edition = "2021"
publish = false

[dependencies]
chrono = "0.4"
zmq = "0.10"
slog = "2"
slog-term = "2"
slog-async = "2"

[dev-dependencies]
bincode = "1"
