[package]
name = "dweb_cli"
version = "0.1.0"
edition = "2021"
publish = false

[dependencies]
regex = "1"
clap = { version = "4", features = ["derive"] }
color-eyre = "0.6"
xor_name = "5"
ant-logging = "*"
