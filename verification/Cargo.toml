[package]
name = "course_catalog"
version = "0.1.0"
edition = "2021"
publish = false

[dependencies]
actix-web = "*"
futures = "*"
mongodb = "*"
serde = { version = "*", features = ["derive"] }
serde_json = "*"
