[package]
name = "ip_monitor"
version = "0.1.0"
edition = "2021"
publish = false

[dependencies]
chrono = "0.4"
dotenv = "0.15"
reqwest = "0.12"
tokio = { version = "1", features = ["macros", "rt-multi-thread", "time"] }
