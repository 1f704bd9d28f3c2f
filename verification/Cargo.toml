[package]
name = "export_stats"
version = "0.1.0"
edition = "2021"
publish = false

[dependencies]
zip = "*"
serde_json = "*"
simd-json = "*"
csv = "*"
chrono = "*"
