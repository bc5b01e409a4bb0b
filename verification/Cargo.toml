[package]
name = "gnosis_era"
version = "0.1.0"
edition = "2021"
publish = false

[dependencies]
rusqlite = { version = "0.40.2", features = ["bundled"] }
tar = "0.4.46"
xz2 = "0.1.7"
