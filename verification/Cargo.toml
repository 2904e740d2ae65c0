[package]
name = "config_compiler"
version = "0.1.0"
edition = "2021"
publish = false

[dependencies]
sha2 = "*"
toml = "*"
serde = { version = "*", features = ["derive"] }
metrics = "*"
hyper = { version = "*", default-features = false }
indexmap = "*"
