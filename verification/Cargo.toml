[package]
name = "wikidata"
version = "0.1.0"
edition = "2021"
publish = false

[dependencies]
chrono = { version = "=0.4.45", features = ["serde"] }
json = "=0.12.4"
serde = { version = "=1.0.229", features = ["derive"] }
