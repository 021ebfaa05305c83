[package]
name = "module_deps"
version = "0.1.0"
edition = "2021"
publish = false

[dependencies]
ascii_table = "3"
futures = "0.3"
serde = { version = "1", features = ["derive"] }
serde_json = "1"
