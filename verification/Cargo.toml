[package]
name = "ug-scraper"
version = "0.2.4"
edition = "2021"
publish = false

[dependencies]
html-escape = "0.2"
percent-encoding = "2.3.2"
regex = "1.11.3"
serde = { version = "1.0.228", features = ["derive"] }
ureq = "3.1.2"
