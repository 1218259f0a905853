[package]
name = "localbill"
version = "0.1.0"
edition = "2021"
publish = false

[dependencies]
clap = { version = "4", features = ["derive"] }
crossterm = "0.28"
jsonschema = { version = "*", default-features = false }
regex = "1"
scraper = "*"
serde = { version = "1", features = ["derive"] }
serde_json = "1"
serde_yaml = "0.9"
time = { version = "0.3", features = ["macros", "parsing", "formatting"] }
ureq = { version = "*", features = ["json"] }
