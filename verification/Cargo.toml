[package]
name = "forge_clone"
version = "0.1.0"
edition = "2021"
publish = false

[dependencies]
foundry-compilers = { version = "*", default-features = false }
alloy-primitives = "*"
serde = { version = "*", features = ["derive"] }
serde_json = "*"
toml_edit = "*"
dunce = "*"
