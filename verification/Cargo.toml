[package]
name = "adb_daemon"
version = "0.1.0"
edition = "2021"
publish = false

[dependencies]
bytes = "1"
camino = "1"
clap = { version = "4", features = ["derive"] }
dashmap = "6"
delegate = "0.13"
derive_more = { version = "1", features = ["full"] }
diatomic-waker = "0.2"
dirs = "5"
eyre = "0.6"
flume = "0.11"
futures = "0.3"
nix = { version = "0.29", features = ["fs", "process"] }
nusb = "0.1"
parking_lot = "0.12"
rsa = "0.9"
serde = { version = "1", features = ["derive"] }
sha1 = { version = "0.10", features = ["oid"] }
time = { version = "0.3", features = ["formatting", "macros", "std"] }
tokio = { version = "1", features = ["full"] }
toml = "0.8"
tracing = "0.1"
tracing-appender = "0.2"
tracing-subscriber = { version = "0.3", features = ["env-filter"] }
which = "7"
