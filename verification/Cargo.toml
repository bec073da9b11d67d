[package]
name = "qsoripper"
version = "0.1.0"
edition = "2021"
publish = false

[dependencies]
anyhow = "1"
clap = { version = "4", features = ["derive"] }
hound = "3"
log = "0.4"
parking_lot = "0.12"
prost-types = "0.13"
rusqlite = "*"
rustfft = "6"
serde_json = "1"
thiserror = "2"
tokio = { version = "1", features = ["rt-multi-thread", "macros", "sync", "time", "process"] }
uuid = { version = "1", features = ["v4"] }
sysinfo = "*"
