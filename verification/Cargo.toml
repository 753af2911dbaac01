[package]
name = "watchsync"
version = "0.1.0"
edition = "2021"
publish = false

[dependencies]
anyhow = "*"
chrono = "*"
crunchyroll-rs = "*"
dotenvy = "*"
levenshtein = "*"
mal-api = "*"
reqwest = { version = "*", default-features = false }
tokio = { version = "*", features = ["macros", "rt-multi-thread", "time"] }
