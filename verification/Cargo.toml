[package]
name = "prog_draw"
version = "0.1.0"
edition = "2021"
publish = false

[dependencies]
html-escape = "0.2"
itertools = "0.10"
csv = "1"
calamine = "0.22"
serde = { version = "1", features = ["derive"] }
once_cell = "1"
lazy_static = "1"
rusttype = "0.9"
wasm-bindgen = "0.2"
