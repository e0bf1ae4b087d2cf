[package]
name = "geomarkover"
version = "0.1.0"
edition = "2021"
publish = false

[dependencies]
futures = "0.3"
google_maps = "*"
serde = { version = "1", features = ["derive"] }
serde_json = "1"
structopt = "0.3"
tokio = { version = "1", features = ["macros", "rt-multi-thread"] }
