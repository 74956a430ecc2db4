[package]
name = "thingy"
version = "0.1.0"
edition = "2021"
publish = false

[dependencies]
actix = "*"
actix-files = "*"
actix-web = "*"
git2 = "*"
serde = { version = "*", features = ["derive"] }
serde_json = "*"
serde_yaml = "*"
tempfile = "*"
