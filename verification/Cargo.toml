[package]
name = "rustdx"
version = "0.1.0"
edition = "2021"
publish = false

[dependencies]
miniz_oxide = "*"
encoding_rs = "*"
argh = "*"
csv = "*"
serde = { version = "*", features = ["derive"] }
serde_json = "*"
ureq = "*"
calamine = "*"
subprocess = "*"
chrono = "*"
