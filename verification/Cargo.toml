[package]
name = "protoflow_blocks"
version = "0.1.0"
edition = "2021"
publish = false

[dependencies]
csv = "=1.4.0"
rand = "=0.9.5"
struson = "=0.7.2"
serde = { version = "=1.0.229", features = ["derive"] }
serde_yml = "=0.0.13"
chrono = "=0.4.45"
prost = { version = "0.13", default-features = false, features = ["std"] }
