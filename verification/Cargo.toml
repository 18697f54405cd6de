[package]
name = "studio_core"
version = "0.1.0"
edition = "2021"
publish = false

[dependencies]
uuid = { version = "1", features = ["v7"] }
serde = { version = "1", features = ["derive"] }
thiserror = "2"
ts-rs = "10"
