[package]
name = "kyberfrog"
version = "0.1.0"
edition = "2021"
publish = false

[dependencies]
sha2 = "=0.10.9"
hex = "=0.4.3"
toml = "=0.8.23"
serde = { version = "=1.0.229", features = ["derive"] }
anyhow = "=1.0.104"
log = "=0.4.35"
flexi_logger = "=0.29.8"
tokio = { version = "=1.54.1", features = ["rt-multi-thread", "macros", "process", "sync", "time", "signal", "io-util", "net", "fs"] }
axum = "=0.7.9"
tower-http = { version = "=0.5.2", features = ["fs"] }
mdns-sd = "=0.11.5"
libc = "=0.2.191"
thiserror = "=1.0.69"
url = "2"
