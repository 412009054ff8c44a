[package]
name = "oci-sync"
version = "0.7.0"
edition = "2021"
publish = false

[dependencies]
aes-gcm = "*"
anyhow = "1"
base64 = "*"
chrono = { version = "0.4", features = ["serde"] }
clap = { version = "4", features = ["derive"] }
clap_complete = "4"
crossterm = "*"
dirs = "*"
docker_credential = "1"
flate2 = "1"
indicatif = "*"
oci-distribution = { version = "*", default-features = false, features = ["rustls-tls"] }
rand = "0.8"
ratatui = "*"
reqwest = { version = "*", default-features = false, features = ["json", "rustls-tls"] }
scrypt = "*"
serde = { version = "1", features = ["derive"] }
serde_json = "1"
serde_yml = "*"
tabled = "*"
tar = "0.4"
thiserror = "*"
tokio = { version = "1", features = ["macros", "rt-multi-thread", "sync", "time"] }
tracing = "0.1"
tracing-subscriber = { version = "0.3", features = ["env-filter"] }
