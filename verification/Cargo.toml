[package]
name = "coursefetch"
version = "0.1.0"
edition = "2021"
publish = false

[dependencies]
scraper = "*"
zip = { version = "*", default-features = false, features = ["deflate"] }
reqwest = { version = "0.12", default-features = false, features = ["blocking", "cookies"] }
