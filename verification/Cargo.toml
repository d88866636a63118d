[package]
name = "orjson"
version = "0.1.0"
edition = "2021"
publish = false

[dependencies]
associative-cache = "1"
encoding_rs = "0.8"
heapless = "0.5"
itoa = "0.4"
lazy_static = "1"
parking_lot = "0.12"
pyo3 = "*"
serde = "1"
serde_json = { version = "1", features = ["preserve_order"] }
smallvec = "1"
wyhash = "0.3"
