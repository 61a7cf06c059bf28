[package]
name = "eggviz"
version = "0.1.0"
edition = "2021"
publish = false

[dependencies]
egg = "*"
wasm-bindgen = "*"
js-sys = "*"
web-sys = { version = "*", features = ["console"] }
console_error_panic_hook = "*"
