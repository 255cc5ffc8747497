[package]
name = "csv_navigator"
version = "0.1.0"
edition = "2021"
publish = false

[dependencies]
csv = "*"
rayon = "*"

[dev-dependencies]
serde_json = "*"
