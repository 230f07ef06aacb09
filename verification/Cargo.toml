[package]
name = "elinor"
version = "0.1.0"
edition = "2021"
publish = false

[dependencies]
rand = "0.8"
statrs = "0.17"
ordered-float = "4"
clap = { version = "4", features = ["derive"] }
serde = { version = "1", features = ["derive"] }
serde_json = "1"
