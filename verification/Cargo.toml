[package]
name = "sulphur"
version = "0.1.0"
edition = "2021"
publish = false

[dependencies]
zip = { version = "*", default-features = false, features = ["deflate"] }
serde = { version = "1", features = ["derive"] }
toml = "0.8"
xdg = "2"
anyhow = "1"
