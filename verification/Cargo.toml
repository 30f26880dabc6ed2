[package]
name = "strings_to_arb"
version = "0.1.0"
edition = "2021"
publish = false

[dependencies]
serde_json = { version = "*", features = ["preserve_order"] }
xml-rs = "*"
anyhow = "*"
clap = { version = "*", features = ["derive"] }
