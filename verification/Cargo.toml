[package]
name = "acm"
version = "0.1.0"
edition = "2021"
publish = false

[dependencies]
byteorder = "1"
md5 = "0.7"
serde = { version = "1", features = ["derive"] }
serde_json = "1"
anyhow = "1"
clap = { version = "4", features = ["derive"] }
wasmtime = "13"
wasmtime-wasi = "13"
wasi-common = "13"
