[package]
name = "corona"
version = "0.1.0"
edition = "2021"
publish = false

[dependencies]
encoding = "0.2"
zip = { version = "*", default-features = false, features = ["deflate"] }
rusqlite = { version = "*", features = ["bundled"] }
toml = "*"
serde = "*"
serde_derive = "*"
clap = { version = "*", features = ["derive"] }
dirs = "*"
