[package]
name = "csv_join"
version = "0.1.0"
edition = "2021"
publish = false

[dependencies]
csv = "1"
clap = { version = "2.34", default-features = false }
