[package]
name = "problem_manager_bot"
version = "0.1.0"
edition = "2021"
publish = false

[dependencies]
chrono = { version = "=0.4.45", features = ["serde"] }
serde = { version = "=1.0.229", features = ["derive"] }
serde_json = "=1.0.154"
teloxide = { version = "0.13", default-features = false, features = ["macros", "rustls", "ctrlc_handler"] }
tokio = { version = "1", features = ["macros", "rt-multi-thread", "time"] }
reqwest = { version = "0.12", default-features = false, features = ["json", "rustls-tls"] }
gcp_auth = "0.10"
scraper = "0.20"
clap = { version = "4", features = ["derive"] }
dotenvy = "0.15"
pretty_env_logger = "0.5"
takecell = "=0.1.1"
