[package]
name = "pdfs_fuse"
version = "0.1.0"
edition = "2021"
publish = false

[dependencies]
libc = "0.2"
parking_lot = "0.12"
serde = { version = "1", features = ["derive"] }
serde_json = "1"
tracing = "0.1"
futures = "0.3"
tokio = { version = "1", features = ["rt-multi-thread", "signal", "sync", "time", "macros"] }
fuser = "*"
