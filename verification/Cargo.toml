[package]
name = "aigov"
version = "0.1.0"
edition = "2021"
publish = false

[dependencies]
quick-xml = "=0.42.0"
zip = "=9.2.2"
file-format = { version = "=0.29.0", features = ["reader-zip"] }
serde = { version = "=1.0.229", features = ["derive"] }
serde_json = "=1.0.154"
clap = { version = "=4.6.7", features = ["derive"] }
indicatif = "=0.18.6"
undoc = "=0.27.1"
