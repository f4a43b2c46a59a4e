[package]
name = "rustfastingest"
version = "0.1.0"
edition = "2021"
publish = false

[dependencies]
uuid = { version = "*", features = ["v4", "v5"] }
serde = { version = "*", features = ["derive"] }
serde_json = "*"
tokio = { version = "*", features = ["full"] }
actix-web = "*"
scylla = "*"
eyre = "*"
futures = "*"
