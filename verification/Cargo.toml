[package]
name = "fast_dedup"
version = "0.1.0"
edition = "2021"
publish = false

[dependencies]
anyhow = "1"
base64 = "0.22"
chrono = "0.4"
clap = { version = "4", features = ["derive"] }
digest = "0.10"
dotenvy = "0.15"
hex = "0.4"
indicatif = "0.17"
lopdf = "*"
md-5 = "0.10"
num_cpus = "1"
rayon = "1"
reqwest = { version = "0.12", default-features = false, features = ["json", "rustls-tls"] }
serde = { version = "1", features = ["derive"] }
sha1 = "0.10"
sha2 = "0.10"
tokio = { version = "1", features = ["full"] }
walkdir = "2"
