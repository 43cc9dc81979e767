[package]
name = "seam_carving"
version = "0.1.0"
edition = "2021"
publish = false

[dependencies]
rayon = "1"
wasm-bindgen = "0.2"
wasm-bindgen-rayon = "1"
console_error_panic_hook = "0.1"
