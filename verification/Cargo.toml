[package]
name = "lopez"
version = "0.1.0"
edition = "2021"
publish = false

[dependencies]
regex = "1"
scraper = "*"
nom = "7"
url = "2"
siphasher = "*"
robots_txt = "*"
serde = { version = "1", features = ["derive"] }
serde_json = "1"
anyhow = "1"
log = "0.4"
ansi_term = "0.12"
structopt = "0.3"
