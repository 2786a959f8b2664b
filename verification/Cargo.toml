[package]
name = "airc"
version = "0.1.1"
edition = "2021"
publish = false

[dependencies]
tokio = { version = "1", features = ["full"] }
rand = "0.9"
regex = "1"
clap = { version = "4", features = ["derive"] }
zip = "2"
chrono = "0.4"
once_cell = "1.19"
thiserror = "1.0"
tracing = "0.1"
tracing-subscriber = { version = "0.3", features = ["env-filter"] }
serde = { version = "1.0", features = ["derive"] }
toml = "0.8"
colored = "3.0"
directories = "5.0"
log = "0.4"
tokio-rustls = { version = "0.26.4", default-features = false, features = ["ring", "tls12", "logging"] }
webpki-roots = "1.0"
ratatui = "0.29"
crossterm = "0.28"
