[package]
name = "asimov_core"
version = "0.1.0"
edition = "2021"
publish = false

[dependencies]
serde_json = "*"
twox-hash = "*"
serde = "*"
futures = "*"
json-stream = "*"
tiktoken-rs = "*"
parking_lot = "*"
async-trait = "*"

[dev-dependencies]
tera = "*"
