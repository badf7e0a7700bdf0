[package]
name = "csv_transform"
version = "0.1.0"
edition = "2021"
publish = false

[dependencies]
heck = "*"
rlua = "*"
csv = "*"
clap = "*"
toml = "*"
serde = "*"
serde_derive = "*"
