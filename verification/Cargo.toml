[package]
name = "calcbot"
version = "0.1.0"
edition = "2021"
publish = false

[dependencies]
rand = "0.8"
tgbotrs = "0.1.4"
tokio = { version = "1", features = ["macros", "rt-multi-thread", "sync"] }
chrono = "0.4"
dotenvy = "0.15"
