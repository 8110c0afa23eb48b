[package]
name = "zomboid-server-operator"
version = "0.0.1"
edition = "2021"
publish = false

[dependencies]
clap = { version = "4", features = ["derive"] }
env_logger = "0.11"
log = "0.4"
regex = "1"
reqwest = { version = "0.11", default-features = false, features = ["json", "rustls-tls"] }
rust-ini = "*"
serde = { version = "1", features = ["derive"] }
serde_derive = "1"
serde_yaml = "0.9"
tokio = { version = "1", features = ["rt-multi-thread", "macros", "fs"] }
