[package]
name = "releasible"
version = "0.1.0"
edition = "2021"
publish = false

[dependencies]
chrono = { version = "0.4", features = ["serde"] }
reqwest = { version = "0.12", features = ["json"] }
serde = { version = "1", features = ["derive"] }
serde_with = "3"
tera = "1"
tokio = { version = "1", features = ["macros", "rt-multi-thread"] }
