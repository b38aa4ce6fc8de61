[package]
name = "cachewarm"
version = "0.1.0"
edition = "2021"
publish = false

[dependencies]
quick-xml = "*"
chrono = "*"
urlencoding = "*"
url = "*"
tokio = { version = "*", features = ["rt-multi-thread", "macros", "fs", "io-util", "time"] }
reqwest = { version = "*", default-features = false, features = ["stream"] }
actix-web = { version = "*", default-features = false, features = ["macros"] }
actix-cors = "*"
futures = "*"
async-trait = "*"
bytes = "*"
parking_lot = "*"
clap = { version = "*", features = ["derive"] }
serde = { version = "*", features = ["derive"] }
tracing = "*"
tracing-subscriber = "*"
