[package]
name = "json_rpc_types"
version = "0.1.0"
edition = "2021"
publish = false

[dependencies]
serde = "=1.0.229"
str-buf = "=3.0.3"

[dev-dependencies]
serde_json = "=1.0.154"
