[package]
name = "weatherpanel"
version = "0.1.0"
edition = "2021"
publish = false

[dependencies]
anyhow = "1"
chrono = { version = "=0.4.45", features = ["serde"] }
embedded-graphics = "=0.7.1"
env_logger = "*"
log = "0.4"
profont = "=0.6.1"
reqwest = { version = "=0.11.27", default-features = false, features = ["json"] }
rppal = { version = "=0.14.1", features = ["hal"] }
serde = { version = "1", features = ["derive"] }
sh1106 = "=0.4.0"
tokio = { version = "=1.53.2", features = ["macros", "rt-multi-thread", "time", "fs", "sync", "io-util"] }
