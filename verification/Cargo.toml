[package]
name = "fnfmt"
version = "0.1.0"
edition = "2021"
publish = false

[dependencies]
syn = { version = "2", features = ["full"] }
toml = "*"
serde = { version = "1", features = ["derive"] }
monostate = "*"
