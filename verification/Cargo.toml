[package]
name = "update_alternatives"
version = "0.1.0"
edition = "2021"
publish = false

[dependencies]
clap = "2"
serde_json = "1"
