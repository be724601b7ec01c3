[package]
name = "markdown_tools"
version = "1.1.0"
edition = "2021"
publish = false

[dependencies]
console_error_panic_hook = "0.1"
pulldown-cmark = { version = "*", default-features = false, features = ["html"] }
serde_json = "1"
wasm-bindgen = "0.2"
wee_alloc = "0.4"
