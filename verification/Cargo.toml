[package]
name = "form_loadtester"
version = "0.1.0"
edition = "2021"
publish = false

[dependencies]
rand = "0.9"
clap = { version = "4", features = ["derive"] }
tokio = { version = "1", features = ["full"] }
reqwest = { version = "0.12", default-features = false, features = ["multipart", "rustls-tls"] }
ctrlc = "3"
csv = "1"
scraper = "*"
