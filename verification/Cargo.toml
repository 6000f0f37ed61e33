[package]
name = "hat"
version = "0.1.0"
edition = "2021"
publish = false

[dependencies]
anyhow = "1.0.104"
base64 = "=0.22.1"
bitflags = "2.9.4"
clap = { version = "4.5.61", features = ["derive"] }
crossterm = { version = "=0.28.1", features = ["event-stream"] }
futures-util = "0.3.34"
libp2p = { version = "0.56.0", default-features = false, features = ["gossipsub", "tokio", "tcp", "noise", "yamux", "macros"] }
parking_lot = "0.12.5"
ratatui = "=0.29.0"
rustc-hash = "2.1.3"
serde = { version = "1.0.229", features = ["derive"] }
smallvec = "1.15.2"
taffy = "0.8.3"
time-format = "1.2.4"
tokio = { version = "1.47.5", features = ["rt-multi-thread", "macros", "sync", "time"] }
toml = "0.8.23"
tracing = "0.1.44"
tracing-subscriber = { version = "0.3.23", default-features = false, features = ["fmt", "std", "registry"] }
