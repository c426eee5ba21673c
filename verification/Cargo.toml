[package]
name = "vectorguard"
version = "0.1.0"
edition = "2021"
publish = false

[dependencies]
glob = "0.3"
toml = "0.8"
serde = { version = "1", features = ["derive"] }
serde_json = "1"
anyhow = "1"
tokio = { version = "1", features = ["rt-multi-thread", "macros", "fs", "io-util", "sync", "time"] }
tracing = "0.1"
tracing-subscriber = "0.3"
notify = "6"
reqwest = { version = "0.12", default-features = false, features = ["json", "rustls-tls"] }
crossterm = "0.28"
ratatui = "0.29"
async-trait = "0.1"
aya = "0.13"

[dev-dependencies]
