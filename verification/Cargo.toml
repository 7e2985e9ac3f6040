[package]
name = "homepage_core"
version = "0.1.0"
edition = "2021"
publish = false

[dependencies]
chrono = "*"
serde_json = "*"
tiny_http = "*"
ureq = "*"
rusqlite = { version = "*", features = ["bundled"] }
maud = "*"
toml = "*"
serde = { version = "*", features = ["derive"] }
dotenv = "*"
url = "*"
