[package]
name = "dns_codec"
version = "0.1.0"
edition = "2021"

[dependencies]
anyhow = "1"
bytes = "1"
nom = "7"
