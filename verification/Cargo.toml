[package]
name = "md2typst"
version = "0.1.0"
edition = "2021"
publish = false

[dependencies]
chrono = { version = "0.4", default-features = false, features = ["clock"] }
rayon = "1"

[dev-dependencies]
regex = "1"
