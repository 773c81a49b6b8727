[package]
name = "skrapy"
version = "0.1.0"
edition = "2021"
publish = false

[dependencies]
url = "2"
sha1 = "0.10"
serde = { version = "1", features = ["derive"] }
serde_json = "1"
erased-serde = "0.4"
http = "1"
reqwest = { version = "0.12", default-features = false, features = ["rustls-tls"] }
tokio = { version = "1", features = ["rt-multi-thread", "macros", "sync", "fs", "io-util", "net", "signal", "time"] }
tokio-util = "0.7"
log = "0.4"
fern = { version = "0.7", features = ["colored"] }
chrono = "0.4"
anyhow = "1"
async-trait = "0.1"
bytes = "1"
thiserror = "2"
libxml = "0.3"
