[package]
name = "cthulhu"
version = "0.1.0"
edition = "2021"
publish = false

[dependencies]
sha2 = "=0.10.9"
rand = "=0.9.5"
serde = { version = "1", features = ["derive"] }
