[package]
name = "nzb_streamer"
version = "0.1.0"
edition = "2021"
publish = false

[dependencies]
byteorder = "=1.5.0"
hex = "=0.4.3"
md-5 = "=0.10.6"
itertools = "=0.15.0"
nzb-rs = "=0.6.0"
bytes = "=1.12.1"
chrono = "=0.4.45"
axum = { version = "=0.8.9", features = ["multipart"] }
tokio = { version = "=1.54.1", features = ["full"] }
tower-http = { version = "=0.7.1", features = ["cors"] }
tracing = "=0.1.44"
tracing-subscriber = { version = "=0.3.23", features = ["env-filter"] }
clap = { version = "=4.6.7", features = ["derive"] }
dotenvy = "=0.15.7"
uuid = { version = "=1.29.0", features = ["v4", "serde"] }
serde = { version = "=1.0.229", features = ["derive"] }
serde_json = "=1.0.154"
thiserror = "=2.0.21"
futures = "=0.3.34"
async-stream = "=0.3.6"
memmap2 = "=0.9.12"
parking_lot = "=0.12.5"
rustix = { version = "=1.1.5", features = ["fs"] }
rek2_nntp = "=1.0.6"
deadpool = { version = "=0.13.1", features = ["rt_tokio_1"] }
backoff = { version = "=0.4.0", features = ["tokio"] }
dashmap = "=6.2.1"
mime_guess = "=2.0.5"
fuser = { version = "=0.15.1", default-features = false }
libc = "=0.2.191"
