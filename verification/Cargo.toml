[package]
name = "postman2openapi"
version = "0.1.0"
edition = "2021"
publish = false

[dependencies]
anyhow = "1"
convert_case = "0.6"
gloo-utils = { version = "0.2", features = ["serde"] }
indexmap = { version = "2", features = ["serde"] }
regex = "1"
serde = { version = "1", features = ["derive"] }
serde_json = "1"
serde_yaml = "0.9"
wasm-bindgen = "0.2"
