[package]
name = "bale_engine"
version = "0.1.0"
edition = "2021"
publish = false

[dependencies]
rand = "*"
csv = "*"
serde = { version = "*", features = ["derive"] }
clap = { version = "*", features = ["derive"] }
encoding_rs = "*"
encoding_rs_io = "*"
