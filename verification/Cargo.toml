[package]
name = "dropzone"
version = "0.1.0"
edition = "2021"
publish = false

[dependencies]
uuid = { version = "*", features = ["v4"] }
axum = { version = "*", features = ["multipart"] }
axum-server = { version = "*", features = ["tls-rustls"] }
tokio = { version = "*", features = ["full"] }
tower-http = { version = "*", features = ["cors", "limit"] }
chrono = "*"
colored = "*"
local-ip-address = "*"
tap = "*"
