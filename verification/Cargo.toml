[package]
name = "calcrux"
version = "0.1.4"
edition = "2021"
publish = false

[dependencies]
astro-float = "*"
malachite = "*"
serde = { version = "1", features = ["derive"] }
serde_json = "1"
thiserror = "*"
uniffi = "0.28"
