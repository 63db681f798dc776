[package]
name = "quickfetch"
version = "0.1.0"
edition = "2021"
publish = false

[dependencies]
aead = "0.5"
aes = "0.8"
aes-gcm = "0.10"
aes-gcm-siv = "0.11"
aes-siv = "0.7"
ascon-aead = "0.4"
ccm = "0.5"
chacha20poly1305 = "0.10"
deoxys = "0.1"
eax = "0.5"
rand = "0.8"
bincode = "1.3"
url = "2"
semver = "1"
sled = "0.34"
anyhow = "1"
bytes = "1"
dirs = "5"
futures = "0.3"
indicatif = "0.17"
log = "0.4"
notify = "6"
pretty_env_logger = "0.5"
reqwest = { version = "0.12", default-features = false, features = ["brotli", "stream", "rustls-tls"] }
serde = { version = "1", features = ["derive"] }
serde_json = "1"
tokio = { version = "1", features = ["fs", "macros", "rt-multi-thread", "sync"] }
toml = "0.8"
