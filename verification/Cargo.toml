[package]
name = "circuit_solver"
version = "0.1.0"
edition = "2021"
publish = false

[dependencies]
ndarray = "*"
operations = "*"
serde = { version = "*", features = ["derive"] }
serde_json = "*"
serde-wasm-bindgen = "*"
wasm-bindgen = "*"
