[package]
name = "submission"
version = "0.1.0"
edition = "2021"
publish = false

[dependencies]
sha2 = "0.10"
actix-web = { version = "4", default-features = false, features = ["macros"] }
actix-files = "0.6"
actix-multipart = { version = "0.7", default-features = false }
clap = { version = "4", features = ["derive"] }
derive_more = { version = "*", features = ["display"] }
env_logger = "0.11"
futures-util = "0.3"
log = "0.4"
serde = { version = "1", features = ["derive"] }
serde_json = "1"
tokio = { version = "1", features = ["sync", "rt-multi-thread", "macros"] }
turso = "*"
