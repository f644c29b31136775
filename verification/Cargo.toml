[package]
name = "spectra_proxy"
version = "0.1.0"
edition = "2021"
publish = false

[dependencies]
bytes = "1"
clap = { version = "4", features = ["derive"] }
crossterm = "0.28"
futures = "0.3"
h3 = "0.0.8"
h3-quinn = "0.0.10"
http-body-util = "0.1"
hyper = { version = "1", features = ["full"] }
hyper-util = { version = "0.1", features = ["full"] }
quinn = "0.11"
rand = "0.8"
ratatui = "0.29"
rustls-acme = "*"
rustls-pemfile = "2"
rustls-pki-types = "1"
serde = { version = "1", features = ["derive"] }
tokio = { version = "1", features = ["full"] }
tokio-rustls = "0.26"
toml = "0.8"
tracing = "0.1"
tracing-subscriber = "0.3"
