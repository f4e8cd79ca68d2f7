[package]
name = "rust_scrapper"
version = "0.1.0"
edition = "2021"
publish = false

[dependencies]
csv = "1"
regex = "1"
scraper = "*"
reqwest = { version = "*", features = ["blocking"] }
