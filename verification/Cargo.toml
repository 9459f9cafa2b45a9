[package]
name = "weird_flags"
version = "0.1.0"
edition = "2021"
publish = false

[dependencies]
image = { version = "*", default-features = false, features = ["png"] }
kasi-kule = "*"
palette_extract = "*"
wasm-bindgen = "*"
js-sys = "*"
