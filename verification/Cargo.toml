[package]
name = "volt"
version = "0.1.0"
edition = "2021"
publish = false

[dependencies]
wasm-encoder = "*"
clap = { version = "4", features = ["derive"] }

[dev-dependencies]
wasmparser = "*"
