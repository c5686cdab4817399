[package]
name = "mapserver_rs"
version = "0.1.0"
edition = "2021"
publish = false

[dependencies]
axum = "0.6"
crossbeam-channel = "0.5"
libc = "0.2"
serde = { version = "1", features = ["derive"] }
threadpool = "1"
tokio = { version = "1", features = ["rt-multi-thread", "macros", "signal", "sync"] }
