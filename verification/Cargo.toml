[package]
name = "superseedr_core"
version = "0.1.0"
edition = "2021"
publish = false

[dependencies]
sha1 = "=0.10.7"
sha2 = "=0.10.9"
rand = "=0.9.5"
serde = { version = "=1.0.229", features = ["derive"] }
serde_bencode = "=0.2.4"
toml = "=0.8.23"
hex = "=0.4.3"
data-encoding = "2"
magnet-url = "*"
urlencoding = "2"
figment = { version = "0.10", features = ["toml", "env"] }
directories = "*"
notify = "*"
clap = { version = "4", features = ["derive"] }
serde_json = "1"
