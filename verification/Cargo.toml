[package]
name = "ctclient"
version = "0.1.0"
edition = "2021"
publish = false

[dependencies]
base64 = "0.13"
x509-parser = "0.16"
url = "2"
serde = { version = "1", features = ["derive"] }
chrono = { version = "0.4", default-features = false, features = ["std"] }
reqwest = { version = "0.11", default-features = false, features = ["json"] }
