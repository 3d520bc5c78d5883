[package]
name = "logsentry"
version = "0.1.0"
edition = "2021"
publish = false

[dependencies]
anyhow = "=1.0.104"
chrono = "=0.4.45"
nix = { version = "=0.29.0", features = ["fs", "process", "signal", "user"] }
redb = "=2.6.4"
regex = "=1.13.1"
serde = { version = "=1.0.229", features = ["derive"] }
serde_json = "=1.0.154"
sysinfo = "=0.33.1"
thiserror = "=2.0.21"
tokio = { version = "=1.54.1", features = ["rt-multi-thread", "macros", "sync", "io-util", "net", "process", "time", "signal", "fs"] }
toml = "=0.8.23"
tracing = "=0.1.44"
tracing-subscriber = { version = "=0.3.23", features = ["env-filter"] }
zbus = "=5.19.0"
