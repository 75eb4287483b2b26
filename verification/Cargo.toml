[package]
name = "boimp"
version = "0.1.0"
edition = "2021"
publish = false

[dependencies]
zip = { version = "*", default-features = false }
image = { version = "*", default-features = false, features = ["png"] }
crossbeam-channel = "*"
serde = { version = "*", features = ["derive"] }
