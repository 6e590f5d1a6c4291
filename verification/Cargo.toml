[package]
name = "stellarconduit_sync_engine"
version = "0.1.0"
edition = "2021"
publish = false

[dependencies]
aes-gcm = "0.10"
argon2 = "0.5"
clap = { version = "4", features = ["derive"] }
ed25519-dalek = { version = "2", features = ["rand_core"] }
hex = "0.4"
log = "0.4"
num-bigint = { version = "0.4", features = ["rand"] }
pqcrypto-dilithium = "0.5"
pqcrypto-traits = "0.3"
rand = "0.8"
rand_chacha = "0.3"
rmp-serde = "1"
rusqlite = { version = "0.32", features = ["bundled"] }
schnorrkel = "0.11"
serde = { version = "1", features = ["derive"] }
serde_json = "1"
sha2 = "0.10"
stellar-strkey = "*"
stellar-xdr = { version = "22.1", default-features = false, features = ["std", "curr", "base64"] }
thiserror = "1"
tokio = { version = "1", features = ["rt", "macros", "time"] }
tokio-rusqlite = "0.6"
