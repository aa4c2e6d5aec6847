[package]
name = "nskeyedarchiver_converter"
version = "0.1.0"
edition = "2021"
publish = false

[dependencies]
clap = { version = "*", features = ["derive"] }
plist = "*"
serde_json = "*"
thiserror = "*"
