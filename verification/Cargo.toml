[package]
name = "probing"
version = "0.1.0"
edition = "2021"
publish = false

[dependencies]
chrono = { version = "=0.4.45", default-features = false, features = ["std"] }
once_cell = "=1.21.4"
log = "=0.4.34"
libc = "=0.2.191"
serde = { version = "=1.0.229", features = ["derive"] }
serde_json = "=1.0.154"
thiserror = "=2.0.21"
tokio = { version = "=1.54.1", features = ["sync", "rt", "rt-multi-thread", "macros", "fs", "net", "time"] }
futures = "=0.3.34"
async-trait = "=0.1.92"
datafusion = { version = "=55.2.0", default-features = false, features = ["sql"] }
clap = { version = "=4.6.7", features = ["derive", "env"] }
axum = { version = "*", default-features = false, features = ["http1", "json", "query", "tokio"] }
tokio-tungstenite = "*"
futures-util = "=0.3.34"
reedline = "*"
env_logger = "*"
nix = { version = "*", features = ["net"] }
