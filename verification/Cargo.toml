[package]
name = "rsstreetview"
version = "0.1.0"
edition = "2021"
publish = false

[dependencies]
image = "0.25"
reqwest = { version = "0.12", default-features = false, features = ["json"] }
tokio = { version = "1", features = ["rt", "time", "macros"] }
futures = "0.3"
serde = { version = "1", features = ["derive"] }
serde_json = "1"
thiserror = "2"
