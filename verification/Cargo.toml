[package]
name = "gochu-core"
version = "0.1.0"
edition = "2021"
publish = false

[dependencies]
zbus = { version = "=4.4.0", default-features = false, features = ["tokio", "p2p"] }
tokio = { version = "=1.54.1", features = ["rt", "macros"] }
serde = "=1.0.229"
wasm-bindgen = "=0.2.130"
js-sys = "=0.3.107"
