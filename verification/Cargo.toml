[package]
name = "slv"
version = "0.1.0"
edition = "2021"
publish = false

[dependencies]
serde_json = "=1.0.151"
serde = { version = "1", features = ["derive"] }
rmp-serde = "=1.3.1"
tokio = { version = "=1.53.2", features = ["fs", "io-std", "io-util", "macros", "net", "rt-multi-thread", "signal", "sync", "time"] }
futures = "=0.3.34"
parking_lot = "=0.12.5"
clap = { version = "=4.6.7", features = ["derive"] }
thiserror = "=1.0.69"
log = "=0.4.34"
env_logger = "=0.10.2"
simplelog = "=0.12.2"
humantime = "=2.4.0"
rand = "=0.8.8"
atty = "=0.2.14"
inotify = "=0.10.2"
rustls = "=0.20.9"
rustls-pemfile = "=1.0.4"
tokio-rustls = "=0.23.4"
tungstenite = "=0.18.0"
tokio-tungstenite = "=0.18.0"
crossterm = { version = "=0.25.0", features = ["event-stream"] }
tui = "=0.19.0"
