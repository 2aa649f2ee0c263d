[package]
name = "partons"
version = "0.1.0"
edition = "2021"
publish = false

[dependencies]
regex = "*"
serde_yaml = "*"
flate2 = "*"
tar = "*"
serde = { version = "*", features = ["derive"] }
serde_json = "*"
toml = "*"
directories = "*"
clap = { version = "*", features = ["derive"] }
reqwest = { version = "*", default-features = false }
tokio = { version = "*", features = ["rt"] }
bytes = "*"
anyhow = "*"
