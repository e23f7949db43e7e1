[package]
name = "memberlist"
version = "0.1.0"
edition = "2021"
publish = false

[dependencies]
indexmap = "*"
async-lock = "*"
async-channel = "*"
futures = "*"
smol_str = "*"
serde = "*"
base64 = "*"

[dev-dependencies]
rand = "*"
transformable = "*"
