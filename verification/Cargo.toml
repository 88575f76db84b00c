[package]
name = "rusty_enet"
version = "0.1.0"
edition = "2021"
publish = false

[dependencies]
wasm-timer = "=0.2.5"
js-sys = "=0.3.107"

[dev-dependencies]
rand = "0.8"
rand_chacha = "0.3"
