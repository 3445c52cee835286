[package]
name = "stark_parser"
version = "0.1.0"
edition = "2021"
publish = false

[dependencies]
clap = { version = "=4.5.61", features = ["derive"] }
hex = "=0.4.3"
serde_json = "=1.0.154"
winter-crypto = "=0.4.2"
winter-math = "=0.4.2"
winter-utils = "=0.4.2"
winterfell = "=0.4.2"
