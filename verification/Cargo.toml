[package]
name = "komorebi"
version = "0.1.0"
edition = "2021"
publish = false

[dependencies]
nanoid = "0.4"
serde = { version = "1", features = ["derive"] }
serde_yaml = "0.9"
color-eyre = "0.6"
strum = { version = "0.26", features = ["derive"] }
clap = { version = "4", features = ["derive"] }
tracing = "0.1"
