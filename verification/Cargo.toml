[package]
name = "scan_report"
version = "0.1.0"
edition = "2021"
publish = false

[dependencies]
scraper = "*"
serde = { version = "*", features = ["derive"] }
serde_json = "*"
zip = "*"
anyhow = "*"
clap = { version = "*", features = ["derive"] }
rust_xlsxwriter = "*"
