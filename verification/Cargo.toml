[package]
name = "wasm_persist"
version = "0.1.0"
edition = "2021"
publish = false

[dependencies]
anyhow = "*"
serde = { version = "*", features = ["derive"] }
serde_json = "*"
walrus = "=0.27.2"
wasmtime = "=46.0.3"
