[package]
name = "natal_chart_solver"
version = "0.1.0"
edition = "2021"
publish = false

[dependencies]
vsop87 = "2.1"
wasm-bindgen = "0.2"
