[package]
name = "expander"
version = "0.1.0"
edition = "2021"
publish = false

[dependencies]
phf = { version = "0.11", features = ["macros"] }
url = "2"

[dev-dependencies]
phf_generator = "0.11"
regex = "1"
