[package]
name = "wiki2md"
version = "0.1.0"
edition = "2021"
publish = false

[dependencies]
regex = "1"
md5 = "0.7"
serde = { version = "1", features = ["derive"] }
serde_json = "1"
serde_yaml = "0.9"
time = { version = "0.3", features = ["formatting", "macros"] }
walkdir = "2"
deunicode = "1"
html-escape = "0.2"
scraper = "*"
reqwest = { version = "0.12", default-features = false, features = ["blocking", "rustls-tls"] }
