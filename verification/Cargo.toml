[package]
name = "lexgate"
version = "0.1.0"
edition = "2021"
publish = false

[dependencies]
urlencoding = "*"
base64 = "*"
mime_guess = "*"
pdf-extract = "*"
serde = { version = "*", features = ["derive"] }
serde_json = "*"
chrono = "*"
reqwest = { version = "*", default-features = false, features = ["blocking", "json"] }
dotenv = "*"
