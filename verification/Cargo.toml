[package]
name = "koifeed"
version = "0.1.0"
edition = "2021"
publish = false

[dependencies]
xml-rs = "=0.8.4"
clap = "=2.34.0"
reqwest = { version = "=0.11.27", features = ["blocking"] }
