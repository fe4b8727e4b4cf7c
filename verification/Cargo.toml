[package]
name = "wireguard_uapi"
version = "0.1.0"
edition = "2021"
publish = false

[dependencies]
base64_light = "*"
mio = { version = "0.8", features = ["os-ext"] }
nix = { version = "0.27", features = ["socket", "net"] }
serde = { version = "1", features = ["derive"] }
