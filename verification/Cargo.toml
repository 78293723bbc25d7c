[package]
name = "rz"
version = "0.1.0"
edition = "2021"
publish = false

[dependencies]
async-nats = "=0.51.0"
clap = { version = "4", features = ["derive"] }
eyre = "0.6"
futures = "0.3"
libc = "0.2"
nix = { version = "=0.29.0", features = ["fs", "poll", "process", "signal", "term"] }
reqwest = { version = "=0.12.28", default-features = false, features = ["json", "rustls-tls"] }
serde = { version = "1", features = ["derive"] }
serde_json = { version = "=1.0.154", features = ["preserve_order"] }
tokio = { version = "1", features = ["macros", "rt", "signal", "time"] }
zellij-tile = "=0.45.1"
