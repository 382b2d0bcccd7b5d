[package]
name = "spacekit_stdlib"
version = "0.1.0"
edition = "2021"
publish = false

[dependencies]
serde = { version = "1", features = ["derive"] }
sha2 = "0.10"
