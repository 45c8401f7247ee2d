[package]
name = "async_uws"
version = "0.1.0"
edition = "2021"
publish = false

[dependencies]
tokio = { version = "1", features = ["sync", "rt", "time"] }
log = "0.4"
uwebsockets_rs = "*"
