[package]
name = "http_server"
version = "0.1.0"
edition = "2021"
publish = false

[dependencies]
flate2 = "1"
httparse = "1"
tokio = { version = "1", features = ["full"] }
clap = { version = "4", features = ["derive"] }
