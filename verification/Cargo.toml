[package]
name = "facebook_recuperator"
version = "0.1.0"
edition = "2021"
publish = false

[dependencies]
select = "=0.6.1"
serde = { version = "1.0", features = ["derive"] }
