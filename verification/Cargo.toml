[package]
name = "quicssh_rs"
version = "0.1.0"
edition = "2021"
publish = false

[dependencies]
clap = { version = "4", features = ["derive"] }
hmac = "0.12"
log = "0.4"
quinn = { version = "0.11", default-features = false, features = ["log", "runtime-tokio", "rustls-ring"] }
rcgen = "0.13"
rustls = { version = "0.23", default-features = false, features = ["logging", "ring", "std", "tls12"] }
rustls-pki-types = "1"
serde = { version = "1", features = ["derive"] }
sha2 = "0.10"
subtle = "2"
tokio = { version = "1", features = ["fs", "io-util", "macros", "net", "rt-multi-thread", "time"] }
toml = "0.8"
