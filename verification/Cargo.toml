[package]
name = "fubuki"
version = "0.1.0"
edition = "2021"
publish = false

[dependencies]
anyhow = "*"
clap = { version = "*", features = ["derive"] }
serde = { version = "*", features = ["derive"] }
serde_json = "*"
ipnet = { version = "*", features = ["serde"] }
byte-unit = "*"
gethostname = "*"
log = "*"
tokio = { version = "*", features = ["rt", "rt-multi-thread", "net", "time", "io-util", "sync", "macros"] }
flume = "*"
libloading = "*"
net-route = "*"
