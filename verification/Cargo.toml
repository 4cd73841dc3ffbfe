[package]
name = "spacetime_features"
version = "0.1.0"
edition = "2021"
publish = false

[dependencies]
chrono = { version = "0.4", default-features = false, features = ["std"] }
csv = "=0.15.0"
rustc-serialize = "=0.3.25"
