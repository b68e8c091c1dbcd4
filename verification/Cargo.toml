[package]
name = "websrv_core"
version = "0.1.0"
edition = "2021"
publish = false

[dependencies]
content_inspector = "0.2"
rand = "0.8"
regex = "1"
uuid = { version = "1", features = ["v4"] }
wait-timeout = "0.2"
lazy_static = "1"
