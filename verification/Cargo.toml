[package]
name = "fulgur_wasi"
version = "0.15.0"
edition = "2021"
publish = false

[dependencies]
slab = "0.4"
serde = { version = "1", features = ["derive"] }
serde_json = "1"
