[package]
name = "gridcalc"
version = "0.1.0"
edition = "2021"
publish = false

[dependencies]
regex = "1"
rand = "0.8"
toml = "0.8"
evalexpr = "11"
crossterm = "0.27"
clap = { version = "4", features = ["derive"] }
arboard = { version = "3", default-features = false }
chrono = "0.4"
reqwest = { version = "0.12", features = ["blocking", "json"] }
scraper = "*"
serde = { version = "1", features = ["derive"] }
