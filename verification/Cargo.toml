[package]
name = "htmx_headers"
version = "0.1.0"
edition = "2021"
publish = false

[dependencies]
http = "1"
serde_json = "1"
serde = { version = "1", features = ["derive"] }
headers-core = "0.3"
http-serde = "2"
