[package]
name = "otter_launcher"
version = "0.1.0"
edition = "2021"
publish = false

[dependencies]
urlencoding = "*"
rustyline = "*"
rustyline-derive = "*"
serde = { version = "*", features = ["derive"] }
toml = "*"
