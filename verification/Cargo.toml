[package]
name = "timeseries_search"
version = "0.1.0"
edition = "2021"
publish = false

[dependencies]
chrono = "0.4"
actix-web = "4"
mongodb = "2"
serde = { version = "1", features = ["derive"] }
serde_json = "1"
futures = "0.3"
