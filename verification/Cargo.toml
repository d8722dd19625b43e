[package]
name = "easy-rpc"
version = "0.1.0"
edition = "2021"
publish = false

[dependencies]
rmp = "0.8"
rmpv = "1"
rmp-serde = "1"
serde = "1"
serde_bytes = "0.11"
downcast-rs = "1"
