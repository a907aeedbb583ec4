[package]
name = "rusty_anna"
version = "0.1.0"
edition = "2021"
publish = false

[dependencies]
regex = "1"
rand = "0.8"
yaml-rust = "0.4"
linked-hash-map = "0.5"
http = "0.2"
reqwest = { version = "0.11", default-features = false, features = ["json", "cookies", "rustls-tls"] }
tokio = { version = "1", features = ["macros", "rt-multi-thread", "time"] }
serde = { version = "1", features = ["derive"] }
serde_json = "1"
dotenv = "0.15"
log = "0.4"
chrono = "0.4"
anyhow = "1"
lazy_static = "1"
