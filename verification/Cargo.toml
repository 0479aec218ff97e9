[package]
name = "share_rates"
version = "0.1.0"
edition = "2021"
publish = false

[dependencies]
chrono = "0.4"
clap = "2"
shellexpand = "*"
