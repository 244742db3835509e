[package]
name = "wally"
version = "0.1.0"
edition = "2021"
publish = false

[dependencies]
anyhow = "1.0"
clap = { version = "4.4", features = ["derive"] }
console = "0.15"
dialoguer = "0.11"
ignore = "0.4"
serde = { version = "1.0", features = ["derive"] }
serde_json = "1.0"
