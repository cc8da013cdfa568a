[package]
name = "legba"
version = "0.1.0"
edition = "2021"
publish = false

[dependencies]
glob = "0.3"
tokio = { version = "1", features = ["full"] }
async-smtp = "0.9"
