[package]
name = "sinowealth_isp"
version = "0.1.0"
edition = "2021"
publish = false

[dependencies]
hidra = "*"
indicatif = "*"
log = "*"
thiserror = "*"
js-sys = "*"
web-sys = { version = "*", features = ["Window"] }
wasm-bindgen-futures = "*"
