[package]
name = "neo"
version = "1.3.0"
edition = "2021"
publish = false

[dependencies]
clap = "4"
colored = "2"
serde_json = { version = "1", features = ["preserve_order"] }
