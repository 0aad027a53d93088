[package]
name = "codejourney"
version = "0.1.0"
edition = "2021"
publish = false

[dependencies]
regex = "1"
serde_json = "1"
toml = "0.8"
chrono = "0.4"
git2 = { version = "0.19", default-features = false }
clap = { version = "4", features = ["derive"] }
indicatif = "0.17"
printpdf = { version = "0.7", default-features = false }
rusqlite = { version = "0.31", features = ["bundled"] }
axum = "0.7"
tokio = { version = "1", features = ["macros", "rt-multi-thread", "net"] }
serde = { version = "1", features = ["derive"] }
