[package]
name = "tristim"
version = "0.1.0"
edition = "2021"
publish = false

[dependencies]
half = "*"
libc = "*"
rand = "*"
rusb = "*"
serde = { version = "*", features = ["derive"] }
serde_json = "*"
smithay-client-toolkit = { version = "*", default-features = false }
thiserror = "*"
wayland-client = "*"
wayland-protocols = { version = "*", features = ["client", "staging"] }
