[package]
name = "dxclrecorder"
version = "0.1.0"
edition = "2021"
publish = false

[dependencies]
async-compression = { version = "=0.4.52", features = ["tokio", "gzip"] }
chrono = "=0.4.45"
clap = { version = "=4.6.7", features = ["derive"] }
dxcllistener = "=1.0.3"
dxclparser = "=1.0.1"
hambands = "=1.0.0"
log = "=0.4.35"
serde = { version = "=1.0.229", features = ["derive"] }
serde_json = "=1.0.154"
simplelog = "=0.12.2"
socket2 = { version = "=0.5.10", features = ["all"] }
thiserror = "=1.0.69"
time = { version = "=0.3.55", features = ["macros", "formatting"] }
tokio = { version = "=1.54.1", features = ["rt-multi-thread", "macros", "fs", "io-util", "signal", "sync", "time"] }
