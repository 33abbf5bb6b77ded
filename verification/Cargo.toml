[package]
name = "webdemo"
version = "0.1.0"
edition = "2021"
publish = false

[dependencies]
actix = "0.13"
actix-files = "0.6"
actix-web = { version = "4", default-features = false, features = ["macros", "ws"] }
actix-web-actors = "4"
derive_more = "0.99"
env_logger = "0.10"
log = "0.4"
rand = "=0.8.8"
serde = { version = "1", features = ["derive"] }
serde_json = "1"
