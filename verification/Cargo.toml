[package]
name = "wasm_plugins"
version = "0.1.0"
edition = "2021"
publish = false

[dependencies]
wasmtime = "22"
wasmtime-wasi = "22"
wit-bindgen = "0.26"
