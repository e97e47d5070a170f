[package]
name = "ani-dl"
version = "0.1.0"
edition = "2021"
publish = false

[dependencies]
anyhow = "1"
colored = "2"
directories = "5"
indicatif = "0.17"
inquire = "0.7"
serde = { version = "1", features = ["derive"] }
serde_json = "1"
spinners = "4"
threadpool = "1"
