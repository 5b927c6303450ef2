[package]
name = "chameleon_core"
version = "0.1.0"
edition = "2021"
publish = false

[dependencies]
serde = { version = "*", features = ["derive"] }
serde_json = "*"
lazy_static = "*"
lalrpop-util = { version = "*", features = ["lexer"] }
