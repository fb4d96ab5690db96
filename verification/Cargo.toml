[package]
name = "homarr_adapter"
version = "0.1.0"
edition = "2021"
publish = false

[dependencies]
bollard = "*"
chrono = "*"
clap = { version = "*", features = ["derive"] }
futures-util = "*"
reqwest = { version = "*", default-features = false, features = ["json", "cookies"] }
serde = { version = "*", features = ["derive"] }
serde_json = "*"
tokio = { version = "*", features = ["macros", "rt-multi-thread", "sync"] }
tracing = "*"
tracing-subscriber = "*"
urlencoding = "*"
