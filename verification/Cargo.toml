[package]
name = "batwatch"
version = "0.1.0"
edition = "2021"
publish = false

[dependencies]
dbus = { version = "=0.9.12", features = ["vendored"] }
dirs = "=7.0.0"
serde = { version = "=1.0.229", features = ["derive"] }
toml = "=1.1.8"

[dev-dependencies]
tempfile = "=3.27.0"
