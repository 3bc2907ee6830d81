[package]
name = "winctrl_config"
version = "0.1.0"
edition = "2021"
publish = false

[dependencies]
serde_json = "1"
serde = { version = "1", features = ["derive"] }
nix = { version = "0.29", features = ["ioctl"] }
async-channel = "2"
gettext-rs = { version = "0.7", features = ["gettext-system"] }
gtk4 = { version = "0.9", features = ["v4_10"] }
libadwaita = { version = "0.7", features = ["v1_5"] }
