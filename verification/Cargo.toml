[package]
name = "mux_client"
version = "0.1.0"
edition = "2021"
publish = false

[dependencies]
tokio = { version = "1", features = ["rt", "io-util"] }
bytes = "1"
tokio-io-utility = "*"
