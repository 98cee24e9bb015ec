[package]
name = "uk2"
version = "0.1.0"
edition = "2021"
publish = false

[dependencies]
anyhow = "1"
encoding_rs = "0.8"
log = "0.4"
chrono = { version = "0.4", default-features = false, features = ["clock"] }
