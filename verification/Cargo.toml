[package]
name = "strava_client"
version = "0.1.0"
edition = "2021"
publish = false

[dependencies]
chrono = "0.4"
indexmap = "2"
urlencoding = "2"
serde = { version = "1", features = ["derive"] }
serde_json = "1"
reqwest = { version = "0.12", default-features = false, features = ["cookies", "json"] }
scraper = "*"
once_cell = "1"
bson = "2"
fantoccini = "*"
url = "2"
