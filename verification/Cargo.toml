[package]
name = "http4r-core"
version = "0.1.0"
edition = "2021"
publish = false

[dependencies]
flate2 = "*"
brotli = "*"
regex = "*"
serde_json = "*"
instant = "*"
wasm-bindgen = "*"
js-sys = "*"
web-sys = { version = "*", features = ["console"] }
console_error_panic_hook = "*"
