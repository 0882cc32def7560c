[package]
name = "libradar"
version = "0.1.0"
edition = "2021"
publish = false

[dependencies]
md-5 = "=0.11.0"
dex = "=0.5.0"
rc-zip = "=0.0.1"
positioned-io = "=0.3.5"
seahorse = "=2.2.0"
serde = { version = "=1.0.229", features = ["derive"] }
