[package]
name = "mini_sheet"
version = "0.1.0"
edition = "2021"
publish = false

[dependencies]
rand = "=0.8.8"
serde = { version = "=1.0.229", features = ["derive"] }
wasm-bindgen = "=0.2.129"
js-sys = "0.3"
bomboni = { version = "=0.1.64", features = ["derive", "wasm"] }
