[package]
name = "scry"
version = "0.1.0"
edition = "2021"
publish = false

[dependencies]
anyhow = "=1.0.104"
async-trait = "=0.1.92"
base64 = "=0.22.1"
blake3 = "=1.8.7"
clap = { version = "=4.6.7", features = ["derive"] }
fuser = { version = "=0.15.1", default-features = false }
hmac = "=0.12.1"
http = "=1.5.0"
libc = "=0.2.191"
mime_guess = "=2.0.5"
reqwest = { version = "=0.12.28", default-features = false, features = ["json"] }
rusqlite = { version = "=0.41.1", features = ["bundled"] }
serde = { version = "=1.0.229", features = ["derive"] }
serde_json = "=1.0.154"
serde_yaml = "=0.9.34"
sha2 = "=0.10.9"
sqlite-vec = "=0.1.9"
tempfile = "=3.27.0"
tokio = { version = "=1.54.1", features = ["rt-multi-thread", "macros", "net", "time", "sync", "fs", "io-util", "signal"] }
tokio-postgres = "=0.7.18"
tonic = { version = "0.12", default-features = false }
tracing = "=0.1.44"
tracing-subscriber = { version = "=0.3.23", features = ["env-filter"] }
utf8parse = "=0.2.2"
uuid = { version = "=1.29.0", features = ["v7"] }
