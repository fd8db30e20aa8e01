[package]
name = "zbus"
version = "0.1.0"
edition = "2021"
publish = false

[dependencies]
async-io = "=1.13.0"
byteorder = "=1.5.0"
futures = "=0.3.34"
nix = { version = "=0.29.0", features = ["socket", "uio", "user"] }
serde = { version = "=1.0.229", features = ["derive"] }
snakecase = "=0.1.0"
