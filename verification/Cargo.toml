[package]
name = "dbterra"
version = "0.1.0"
edition = "2021"
publish = false

[dependencies]
convert_case = "*"
treediff = "*"
serde = { version = "*", features = ["derive"] }
serde_json = "*"
serde_yaml = "*"
clap = { version = "*", features = ["derive"] }
colored = "*"
dialoguer = "*"
reqwest = { version = "*", default-features = false, features = ["blocking", "json", "rustls-tls"] }
