[package]
name = "pleco_links"
version = "0.1.0"
edition = "2021"
publish = false

[dependencies]
anyhow = "1"
cjk = "*"
clap = { version = "4", features = ["derive"] }
rusqlite = "0.29"
tempfile = "3"
zip = "0.6"
