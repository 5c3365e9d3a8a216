[package]
name = "ty_unnecessary"
version = "0.1.0"
edition = "2021"
publish = false

[dependencies]
anyhow = "1"
rayon = "1"
salsa = "*"
serde = { version = "1", features = ["derive"] }
serde_json = "1"
