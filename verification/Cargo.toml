[package]
name = "beeswarmer"
version = "0.1.0"
edition = "2021"
publish = false

[dependencies]
serde = { version = "1", features = ["derive"] }
toml = "*"
directories = "*"
rfd = { version = "*", default-features = false, features = ["xdg-portal", "tokio"] }
forust-ml = "*"
piet = "*"
piet-svg = "*"
resvg = "*"
spdlog-rs = "*"
