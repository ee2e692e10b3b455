[package]
name = "axeno-relay"
version = "0.1.0"
edition = "2021"
publish = false

[dependencies]
anyhow = "1"
argon2 = "0.5"
axum = { version = "0.8", features = ["ws"] }
base64 = "0.22"
chacha20poly1305 = "0.10"
dashmap = "6"
futures-util = "0.3"
getrandom = "0.2"
hex = "0.4"
rand_chacha = "0.9"
rand_core = "0.9"
redb = "3"
reqwest = { version = "0.12", default-features = false, features = ["json", "rustls-tls", "socks"] }
semver = "1"
serde = { version = "1", features = ["derive"] }
serde_json = "1"
sha2 = "0.10"
tokio = { version = "1", features = ["macros", "rt-multi-thread", "net", "time", "sync", "process", "io-util"] }
tower-http = { version = "0.6", features = ["trace"] }
tracing = "0.1"
tracing-subscriber = { version = "0.3", features = ["env-filter"] }
uuid = { version = "1", features = ["v4", "serde"] }

[dev-dependencies]
tempfile = "3"
