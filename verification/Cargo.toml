[package]
name = "pengler"
version = "0.1.0"
edition = "2021"
publish = false

[dependencies]
anyhow = "*"
blake3 = "*"
chrono = "*"
dirs = "*"
image = { version = "*", default-features = false, features = ["jpeg", "png", "webp", "gif"] }
rayon = "*"
rusqlite = { version = "*", features = ["bundled"] }
serde = { version = "*", features = ["derive"] }
serde_json = "*"
toml = "*"
walkdir = "*"
