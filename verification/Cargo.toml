[package]
name = "tfscale"
version = "0.1.0"
edition = "2021"
publish = false

[dependencies]
chacha20poly1305 = "=0.10.1"
hkdf = "=0.12.4"
sha2 = "=0.10.9"
x25519-dalek = { version = "=2.0.1", features = ["static_secrets", "getrandom"] }
base64 = "=0.22.1"
getrandom = "=0.3.4"
uuid = { version = "=1.29.0", features = ["v7"] }
hex = "=0.4.3"
serde = { version = "=1.0.229", features = ["derive"] }
serde_json = "=1.0.154"
thiserror = "=2.0.21"
anyhow = "=1.0.104"
clap = { version = "=4.6.7", features = ["derive", "env"] }
async-trait = "=0.1.92"
tokio = { version = "=1.54.1", features = ["rt-multi-thread", "macros", "net", "io-util", "sync", "time", "signal"] }
reqwest = { version = "=0.12.28", default-features = false, features = ["json"] }
axum = "=0.8.9"
sqlx = { version = "=0.8.6", default-features = false, features = ["runtime-tokio", "sqlite"] }
tracing = "=0.1.44"
tracing-subscriber = { version = "=0.3.23", features = ["env-filter"] }
tun-rs = "=2.8.16"
