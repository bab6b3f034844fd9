[package]
name = "method_lib"
version = "0.1.0"
edition = "2021"
publish = false

[dependencies]
edit-distance = "*"
shortlist = "*"
serde = { version = "*", features = ["derive"] }
serde_json = "*"
