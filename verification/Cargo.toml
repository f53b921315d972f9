[package]
name = "bare_http"
version = "0.1.0"
edition = "2021"
publish = false

[dependencies]
base64 = "0.22"
colored = "2"
json = "0.12"
rusqlite = "*"
sha256 = "1"
tokio = { version = "1", features = ["full"] }
urlencoding = "2"
uuid = { version = "1", features = ["v4"] }
