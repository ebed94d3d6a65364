[package]
name = "rps_sim"
version = "0.1.0"
edition = "2021"
publish = false

[dependencies]
rand = "=0.10.3"
image = { version = "=0.25.10", default-features = false, features = ["png", "jpeg", "webp"] }
cargo_toml = "=0.22.3"
open = "=5.4.5"
pollster = "=0.4.0"
web-sys = { version = "=0.3.107", features = ["Window"] }
wasm-bindgen-futures = "=0.4.80"
