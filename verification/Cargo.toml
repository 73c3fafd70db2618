[package]
name = "nebula_common"
version = "0.1.0"
edition = "2021"
publish = false

[dependencies]
ed25519-dalek = { version = "=2.2.0", features = ["rand_core"] }
rand_core = { version = "=0.6.4", features = ["getrandom"] }
ciborium = "=0.2.2"
ciborium-ll = "=0.2.2"
serde = { version = "=1.0.229", features = ["derive"] }
thiserror = "=2.0.21"
tokio = { version = "=1.54.1", features = ["rt-multi-thread", "net", "sync", "time", "macros", "io-util", "signal"] }
futures = "=0.3.34"
async-trait = "=0.1.92"
toml = "=1.1.8"
dirs = "=7.0.0"
clap = { version = "=4.6.7", features = ["derive"] }
color-eyre = "=0.6.5"
ratatui = "=0.30.2"
crossterm = { version = "=0.29.0", features = ["event-stream"] }
tui-input = "=0.15.5"
