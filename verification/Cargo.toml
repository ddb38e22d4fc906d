[package]
name = "solder-cortex"
version = "0.1.0"
edition = "2021"
publish = false

[dependencies]
anchor-lang = "*"
reqwest = { version = "*", default-features = false, features = ["json"] }
serde = { version = "*", features = ["derive"] }
