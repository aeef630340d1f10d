[package]
name = "product_catalog"
version = "0.1.0"
edition = "2021"
publish = false

[dependencies]
rand = "0.8"
serde = { version = "*", features = ["derive"] }
serde_json = "*"
actix = "*"
actix-web = "*"
actix-web-actors = "*"
actix-cors = "*"
actix-rt = "*"
actix-multipart = "*"
futures = "*"
tokio = { version = "*", features = ["sync", "time", "rt", "macros"] }
