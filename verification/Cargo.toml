[package]
name = "cli_pocket"
version = "0.1.0"
edition = "2021"
publish = false

[dependencies]
vte = "0.13"
hmac = "0.12"
sha2 = "0.10"
subtle = "2.5"
base64 = "0.22"
rand = "0.8"
getrandom = "0.2"
hex = "0.4"
uuid = "1"
serde = { version = "1", features = ["derive"] }
serde_json = "1"
toml = "0.8"
clap = { version = "4", features = ["derive", "env"] }
anyhow = "1"
