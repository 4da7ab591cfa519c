[package]
name = "logpart"
version = "0.1.0"
edition = "2021"
publish = false

[dependencies]
chrono = "0.4"
flate2 = "1"
rayon = "1"
serde_json = "1"
