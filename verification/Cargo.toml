[package]
name = "journal_pages"
version = "0.1.0"
edition = "2021"
publish = false

[dependencies]
anyhow = "1"
chrono = "0.4"
clap = { version = "4", features = ["derive"] }
derive_more = { version = "1", features = ["display", "from"] }
