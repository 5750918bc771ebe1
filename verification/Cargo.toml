[package]
name = "vout"
version = "0.1.0"
edition = "2021"
publish = false

[dependencies]
anyhow = "1"
base64 = "0.22"
chacha20poly1305 = "0.10"
chrono = "0.4"
clap = { version = "4", features = ["derive"] }
config = { version = "0.14", default-features = false, features = ["yaml"] }
hkdf = "0.12"
http-body-util = "0.1"
hyper = { version = "1", features = ["server", "http1"] }
hyper-util = { version = "0.1", features = ["tokio"] }
keyring = "3"
rand = "0.8"
rand_chacha = "0.3"
regex = "1"
rustls = { version = "0.23", default-features = false, features = ["aws_lc_rs", "std"] }
sea-orm = { version = "1", default-features = false, features = ["sqlx-sqlite", "runtime-tokio-rustls", "macros", "with-chrono"] }
serde = { version = "1", features = ["derive"] }
serde_json = "1"
sha2 = "0.10"
tokio = { version = "1", features = ["full"] }
tokio-rustls = { version = "0.26", default-features = false, features = ["aws_lc_rs"] }
uuid = { version = "1", features = ["v4"] }
x25519-dalek = { version = "2", features = ["static_secrets"] }
x509-parser = "0.16"
zeroize = "1"
