[package]
name = "zaiko_auth"
version = "0.1.0"
edition = "2021"
publish = false

[dependencies]
actix-web = "4"
jsonwebtoken = "9"
openidconnect = "4"
serde = { version = "1", features = ["derive"] }
serde_json = "1"
