[package]
name = "splica"
version = "0.1.0"
edition = "2021"
publish = false

[dependencies]
bytes = "1"
thiserror = "*"
serde = { version = "1", features = ["derive"] }
serde_json = "1"
wasm-bindgen = "*"
js-sys = "*"
