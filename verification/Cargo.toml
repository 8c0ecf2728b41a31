[package]
name = "catalog_sync"
version = "0.1.0"
edition = "2021"
publish = false

[dependencies]
cuid = "=2.0.4"
itertools = "=0.15.0"
dotenv = "=0.15.0"
futures = "=0.3.34"
scryfall = "=0.25.0"
sqlx = { version = "=0.7.4", default-features = false, features = ["runtime-tokio", "postgres"] }
tokio = { version = "=1.54.1", features = ["macros", "rt-multi-thread"] }
