[package]
name = "noir_wasm"
version = "0.1.0"
edition = "2021"
publish = false

[dependencies]
acvm = "=0.27.0"
serde = { version = "1", features = ["derive"] }
wasm-bindgen = "0.2"
js-sys = "0.3"
gloo-utils = { version = "0.2", features = ["serde"] }
console_error_panic_hook = "0.1"
cfg-if = "1"
