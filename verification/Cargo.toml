[package]
name = "gsim"
version = "0.1.0"
edition = "2021"
publish = false

[dependencies]
ahash = "=0.8.12"
rayon = "=1.12.0"
smallvec = "=1.16.4"
serde = { version = "1", features = ["derive"] }
serde_json = "1"
