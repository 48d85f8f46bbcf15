[package]
name = "grib_viewer"
version = "0.1.0"
edition = "2021"
publish = false

[dependencies]
grib = { version = "=0.20.2", default-features = false, features = ["wasm-default"] }
chrono = "=0.4.45"
log = "=0.4.35"
num = "=0.4.3"
serde = { version = "=1.0.229", features = ["derive"] }
serde_plain = "=1.0.2"
serde-wasm-bindgen = "=0.6.5"
wasm-bindgen = "=0.2.130"
js-sys = "=0.3.107"
console_error_panic_hook = "=0.1.7"
console_log = "=1.1.0"
colorgrad = { version = "=0.9.0", features = ["preset"] }
