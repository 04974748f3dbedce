[package]
name = "turls"
version = "0.1.0"
edition = "2021"
publish = false

[dependencies]
bidir-map = "*"
fastcgi = "*"
rand = "*"
serde = "*"
serde_json = "*"
toml = "*"
