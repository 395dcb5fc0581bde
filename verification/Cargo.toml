[package]
name = "tdlib_rs"
version = "0.1.0"
edition = "2021"
publish = false

[dependencies]
futures-channel = "0.3"
serde_json = "1"
log = "0.4"
