[package]
name = "urd_compiler"
version = "0.1.0"
edition = "2021"
publish = false

[dependencies]
indexmap = "=2.14.2"
serde_json = { version = "=1.0.154", features = ["preserve_order"] }
wasm-bindgen = "=0.2.130"
