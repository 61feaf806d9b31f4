[package]
name = "wasm_crossword_generator"
version = "0.1.0"
edition = "2021"
publish = false

[dependencies]
rand = "0.8"
serde = { version = "1", features = ["derive"] }
thiserror = "1"
wasm-bindgen = "0.2"
tsify = { version = "0.4", features = ["js"] }
console_error_panic_hook = "0.1"
