[package]
name = "frostwall"
version = "0.1.0"
edition = "2021"
publish = false

[dependencies]
anyhow = "1"
axum = { version = "0.8", default-features = false, features = ["http1", "json", "tokio"] }
bincode = "1.3"
blake3 = "1"
bytes = "1"
chacha20poly1305 = "0.10"
dirs = "6"
futures = { version = "0.3", default-features = false, features = ["std"] }
hkdf = "0.12"
hmac = "0.12"
iroh = { version = "1.0", default-features = false, features = ["tls-ring"] }
mdns-sd = "0.21"
rand = "0.8"
reqwest = { version = "0.13", default-features = false, features = ["json"] }
serde = { version = "1", features = ["derive"] }
serde_json = "1"
sha2 = "0.10"
spake2 = "0.4"
subtle = "2"
tokio = { version = "1", features = ["macros", "rt-multi-thread", "net", "sync", "time", "fs", "io-util", "signal"] }
tokio-util = { version = "0.7", features = ["codec"] }
tracing = "0.1"
tracing-subscriber = { version = "0.3", default-features = false, features = ["env-filter", "fmt"] }
uuid = { version = "1", features = ["v4"] }
x25519-dalek = "2"
