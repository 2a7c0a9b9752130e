[package]
name = "waterbase_rust_app"
version = "0.1.0"
edition = "2021"
publish = false

[dependencies]
uuid = { version = "1", features = ["v4"] }
bcrypt = "*"
serde = { version = "1", features = ["derive"] }
serde_json = "1"
rmp-serde = "1"
tokio = { version = "1", features = ["sync", "rt", "macros"] }
actix-web = { version = "4", default-features = false, features = ["macros", "cookies"] }
maud = "*"
dotenvy = "0.15"
