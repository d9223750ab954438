[package]
name = "interpreter_rust"
version = "0.1.0"
edition = "2021"

[dependencies]
rustyline = "*"
serde = { version = "*", features = ["derive"] }
