[package]
name = "gnafr"
version = "0.1.0"
edition = "2021"
publish = false

[dependencies]
zstd = "*"
anyhow = "*"
rusqlite = "*"
sqlx = { version = "*", default-features = false, features = ["runtime-tokio", "sqlite", "derive"] }
actix-web = { version = "*", default-features = false, features = ["macros"] }
clap = { version = "*", features = ["derive"] }
serde = { version = "*", features = ["derive"] }
